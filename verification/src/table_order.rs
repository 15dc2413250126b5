//! Sorting table rows: one stable selection sort for every row type that
//! says which row goes first and which rows are equal in every sort key.

use vstd::prelude::*;
use vstd::relations::sorted_by;

verus! {

/// A row of a table with a fixed order.
pub trait TableRow: Sized {
    /// Row `a` goes strictly before row `b`.
    spec fn goes_before(a: Self, b: Self) -> bool;

    /// Rows `a` and `b` are equal in every sort key.
    spec fn ties_with(a: Self, b: Self) -> bool;

    /// Whether row `a` goes strictly before row `b`.
    fn goes_before_exec(a: &Self, b: &Self) -> (r: bool)
        ensures
            r == Self::goes_before(*a, *b);

    /// Going before is irreflexive and transitive, and rows equal in every
    /// key compare alike against any third row.
    proof fn lemma_table_order(a: Self, b: Self, c: Self)
        ensures
            !Self::goes_before(a, a),
            Self::goes_before(a, b) && Self::goes_before(b, c) ==> Self::goes_before(a, c),
            Self::ties_with(a, b) ==> Self::ties_with(b, a),
            Self::ties_with(a, b) ==> Self::goes_before(a, c) == Self::goes_before(b, c),
            Self::ties_with(a, b) ==> Self::goes_before(c, a) == Self::goes_before(c, b);
}

/// Row `a` may be shown above row `b`.
pub open spec fn table_in_order<T: TableRow>() -> spec_fn(T, T) -> bool {
    |a: T, b: T| !T::goes_before(b, a)
}

/// `out` holds the items of `inp` at the positions `p`, each position taken once.
pub open spec fn rearranged_by<T>(out: Seq<T>, inp: Seq<T>, p: Seq<int>) -> bool {
    &&& out.len() == inp.len()
    &&& p.len() == out.len()
    &&& forall|i: int| 0 <= i < out.len() ==> 0 <= #[trigger] p[i] < inp.len() && out[i] == inp[p[i]]
    &&& forall|i: int, j: int| 0 <= i < j < out.len() ==> #[trigger] p[i] != #[trigger] p[j]
}

/// `out` rearranges `inp` so that rows equal in every key keep their input
/// order.
pub open spec fn ties_keep_order<T: TableRow>(out: Seq<T>, inp: Seq<T>) -> bool {
    exists|p: Seq<int>| #[trigger] rearranged_by(out, inp, p)
        && forall|i: int, j: int| 0 <= i < j < out.len() && T::ties_with(out[i], out[j])
            ==> #[trigger] p[i] < #[trigger] p[j]
}

/// Sorts the rows in place into table order; rows equal in every key keep
/// their order.
pub fn stable_sort<T: TableRow>(rows: &mut Vec<T>)
    ensures
        final(rows)@.to_multiset() == old(rows)@.to_multiset(),
        sorted_by(final(rows)@, table_in_order::<T>()),
        ties_keep_order(final(rows)@, old(rows)@),
{
    broadcast use vstd::seq_lib::group_to_multiset_ensures;
    let mut rest: Vec<T> = Vec::new();
    std::mem::swap(&mut rest, rows);
    let ghost initial = rest@;
    let ghost n = initial.len();
    let ghost in_order = table_in_order::<T>();
    let ghost mut opos: Seq<int> = Seq::empty();
    let ghost mut rpos: Seq<int> = Seq::new(n, |i: int| i);
    while rest.len() > 0
        invariant
            in_order == table_in_order::<T>(),
            rows@.to_multiset().add(rest@.to_multiset()) == initial.to_multiset(),
            sorted_by(rows@, in_order),
            forall|i: int, j: int| 0 <= i < rows@.len() && 0 <= j < rest@.len() ==> in_order(rows@[i], rest@[j]),
            n == initial.len(),
            rows@.len() + rest@.len() == n,
            opos.len() == rows@.len(),
            rpos.len() == rest@.len(),
            forall|k: int| 0 <= k < rows@.len() ==> 0 <= #[trigger] opos[k] < n && rows@[k] == initial[opos[k]],
            forall|k: int| 0 <= k < rest@.len() ==> 0 <= #[trigger] rpos[k] < n && rest@[k] == initial[rpos[k]],
            forall|a: int, b: int| 0 <= a < b < rest@.len() ==> #[trigger] rpos[a] < #[trigger] rpos[b],
            forall|a: int, b: int| 0 <= a < b < rows@.len() ==> #[trigger] opos[a] != #[trigger] opos[b],
            forall|a: int, b: int| 0 <= a < rows@.len() && 0 <= b < rest@.len() ==> #[trigger] opos[a] != #[trigger] rpos[b],
            forall|a: int, b: int| 0 <= a < b < rows@.len() && T::ties_with(rows@[a], rows@[b])
                ==> #[trigger] opos[a] < #[trigger] opos[b],
            forall|a: int, b: int| 0 <= a < rows@.len() && 0 <= b < rest@.len() && T::ties_with(rows@[a], rest@[b])
                ==> #[trigger] opos[a] < #[trigger] rpos[b],
        decreases rest.len(),
    {
        let mut best: usize = 0;
        let mut k: usize = 1;
        proof {
            T::lemma_table_order(rest@[0], rest@[0], rest@[0]);
        }
        while k < rest.len()
            invariant
                0 <= best < k <= rest.len(),
                forall|j: int| 0 <= j < k ==> !T::goes_before(#[trigger] rest@[j], rest@[best as int]),
                forall|j: int| 0 <= j < best ==> !T::ties_with(#[trigger] rest@[j], rest@[best as int]),
            decreases rest.len() - k,
        {
            if T::goes_before_exec(&rest[k], &rest[best]) {
                proof {
                    assert forall|j: int| 0 <= j < k + 1 implies !T::goes_before(#[trigger] rest@[j], rest@[k as int]) by {
                        T::lemma_table_order(rest@[j], rest@[k as int], rest@[best as int]);
                        T::lemma_table_order(rest@[k as int], rest@[k as int], rest@[k as int]);
                    }
                    assert forall|j: int| 0 <= j < k implies !T::ties_with(#[trigger] rest@[j], rest@[k as int]) by {
                        T::lemma_table_order(rest@[j], rest@[k as int], rest@[best as int]);
                    }
                }
                best = k;
            }
            k = k + 1;
        }
        let ghost before_rest = rest@;
        let ghost before_rows = rows@;
        let ghost before_opos = opos;
        let ghost before_rpos = rpos;
        let row = rest.remove(best);
        proof {
            vstd::seq_lib::to_multiset_remove(before_rest, best as int);
            assert(before_rest.remove(best as int) == rest@);
        }
        rows.push(row);
        proof {
            let p = before_rpos[best as int];
            opos = before_opos.push(p);
            rpos = before_rpos.remove(best as int);
            assert(rows@ == before_rows.push(row));
            assert(rows@.to_multiset() == before_rows.to_multiset().insert(row)) by {
                vstd::seq_lib::to_multiset_build(before_rows, row);
            }
            assert(rows@.to_multiset().add(rest@.to_multiset()) =~= initial.to_multiset()) by {
                broadcast use vstd::multiset::group_multiset_axioms;
                assert(before_rest[best as int] == row);
                assert(before_rest.contains(row));
                vstd::seq_lib::to_multiset_contains(before_rest, row);
                assert(before_rest.to_multiset().count(row) > 0);
            }
            assert forall|i: int, j: int| 0 <= i < j < rows@.len() implies #[trigger] in_order(rows@[i], rows@[j]) by {
                if j == rows@.len() - 1 {
                    assert(in_order(before_rows[i], before_rest[best as int]));
                } else {
                    assert(in_order(before_rows[i], before_rows[j]));
                }
            }
            assert forall|i: int, j: int| 0 <= i < rows@.len() && 0 <= j < rest@.len() implies in_order(rows@[i], rest@[j]) by {
                let jj = if j < best { j } else { j + 1 };
                assert(rest@[j] == before_rest[jj]);
                if i == rows@.len() - 1 {
                    assert(!T::goes_before(before_rest[jj], before_rest[best as int]));
                } else {
                    assert(in_order(before_rows[i], before_rest[jj]));
                }
            }
            assert forall|k: int| 0 <= k < rows@.len() implies 0 <= #[trigger] opos[k] < n && rows@[k] == initial[opos[k]] by {
                if k < before_rows.len() {
                    assert(opos[k] == before_opos[k]);
                }
            }
            assert forall|k: int| 0 <= k < rest@.len() implies 0 <= #[trigger] rpos[k] < n && rest@[k] == initial[rpos[k]] by {
                let kk = if k < best { k } else { k + 1 };
                assert(rpos[k] == before_rpos[kk]);
                assert(rest@[k] == before_rest[kk]);
            }
            assert forall|a: int, b: int| 0 <= a < b < rest@.len() implies #[trigger] rpos[a] < #[trigger] rpos[b] by {
                let aa = if a < best { a } else { a + 1 };
                let bb = if b < best { b } else { b + 1 };
                assert(rpos[a] == before_rpos[aa]);
                assert(rpos[b] == before_rpos[bb]);
            }
            assert forall|a: int, b: int| 0 <= a < b < rows@.len() implies #[trigger] opos[a] != #[trigger] opos[b] by {
                assert(opos[a] == before_opos[a]);
                if b < before_rows.len() {
                    assert(opos[b] == before_opos[b]);
                } else {
                    assert(before_opos[a] != before_rpos[best as int]);
                }
            }
            assert forall|a: int, b: int| 0 <= a < rows@.len() && 0 <= b < rest@.len() implies #[trigger] opos[a] != #[trigger] rpos[b] by {
                let bb = if b < best { b } else { b + 1 };
                assert(rpos[b] == before_rpos[bb]);
                if a < before_rows.len() {
                    assert(opos[a] == before_opos[a]);
                    assert(before_opos[a] != before_rpos[bb]);
                } else if bb < best {
                    assert(before_rpos[bb] < before_rpos[best as int]);
                } else {
                    assert(before_rpos[best as int] < before_rpos[bb]);
                }
            }
            assert forall|a: int, b: int| 0 <= a < b < rows@.len() && T::ties_with(rows@[a], rows@[b])
                implies #[trigger] opos[a] < #[trigger] opos[b] by {
                assert(opos[a] == before_opos[a]);
                assert(rows@[a] == before_rows[a]);
                if b < before_rows.len() {
                    assert(opos[b] == before_opos[b]);
                    assert(rows@[b] == before_rows[b]);
                } else {
                    assert(rows@[b] == before_rest[best as int]);
                    assert(before_opos[a] < before_rpos[best as int]);
                }
            }
            assert forall|a: int, b: int| 0 <= a < rows@.len() && 0 <= b < rest@.len() && T::ties_with(rows@[a], rest@[b])
                implies #[trigger] opos[a] < #[trigger] rpos[b] by {
                let bb = if b < best { b } else { b + 1 };
                assert(rpos[b] == before_rpos[bb]);
                assert(rest@[b] == before_rest[bb]);
                if a < before_rows.len() {
                    assert(opos[a] == before_opos[a]);
                    assert(rows@[a] == before_rows[a]);
                    assert(before_opos[a] < before_rpos[bb]);
                } else {
                    assert(rows@[a] == before_rest[best as int]);
                    if bb < best {
                        T::lemma_table_order(before_rest[best as int], before_rest[bb], before_rest[bb]);
                        assert(!T::ties_with(before_rest[bb], before_rest[best as int]));
                    }
                    assert(before_rpos[best as int] < before_rpos[bb]);
                }
            }
        }
    }
    assert(rest@.to_multiset() =~= vstd::multiset::Multiset::empty());
    assert(rows@.to_multiset() =~= rows@.to_multiset().add(rest@.to_multiset()));
    assert(rearranged_by(rows@, initial, opos));
}

} // verus!
