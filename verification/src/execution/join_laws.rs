//! Laws of the hash join: what its output is when no filter applies, how
//! many rows a full join puts out, and that an inner join does not depend
//! on which input is the build side.

use crate::catalog::ColumnModel;
use crate::errors::ExecutorError;
use crate::execution::hash_join::{
    build_all, forced, hash_join, joined, joins_nullable_spec, null_values, positions, probe_all,
    row_hash, lemma_positions, JoinModel, JoinParams, JoinType,
};
use crate::expression::ExprModel;
use crate::tuple::{fits_columns, TupleModel};
use crate::types::{Datum, TypeError};
use vstd::prelude::*;
use vstd::multiset::group_multiset_axioms;
use vstd::seq_lib::{lemma_multiset_commutative, to_multiset_build};

verus! {

/// The hashes of the join keys of the rows, or the first failure to compute
/// one.
pub open spec fn row_hashes(keys: Seq<ExprModel>, rows: Seq<TupleModel>) -> Result<
    Seq<u64>,
    TypeError,
>
    decreases rows.len(),
{
    if rows.len() == 0 {
        Ok(Seq::empty())
    } else {
        match row_hashes(keys, rows.drop_last()) {
            Err(e) => Err(e),
            Ok(hashes) => match row_hash(keys, rows.last()) {
                Err(e) => Err(e),
                Ok(h) => Ok(hashes.push(h)),
            },
        }
    }
}

/// The columns of the first of the rows with their nullability replaced, or
/// none if there is no row.
pub open spec fn side_columns(rows: Seq<TupleModel>, nullable: bool) -> Seq<ColumnModel> {
    if rows.len() == 0 {
        Seq::empty()
    } else {
        forced(rows[0].columns, nullable)
    }
}

/// The hashes that occur on both sides.
pub open spec fn common_hashes(left: Seq<u64>, right: Seq<u64>) -> Set<u64> {
    Set::new(|h: u64| left.contains(h) && right.contains(h))
}

/// How many of `hashes` do not occur among `others`.
pub open spec fn count_missing(hashes: Seq<u64>, others: Seq<u64>) -> nat
    decreases hashes.len(),
{
    if hashes.len() == 0 {
        0
    } else {
        count_missing(hashes.drop_last(), others) + if others.contains(hashes.last()) {
            0nat
        } else {
            1nat
        }
    }
}

/// The pairs of a position in `build` and a position in `probe` that hold
/// the same hash, in the order in which a join puts out their rows: by
/// position in `probe`, then by position in `build`.
pub open spec fn matched_pairs(build: Seq<u64>, probe: Seq<u64>) -> Seq<(int, int)>
    decreases probe.len(),
{
    if probe.len() == 0 {
        Seq::empty()
    } else {
        matched_pairs(build, probe.drop_last()) + paired(
            positions(build, probe.last()),
            probe.len() - 1,
        )
    }
}

/// Each of `found` paired with `j`.
pub open spec fn paired(found: Seq<int>, j: int) -> Seq<(int, int)> {
    Seq::new(found.len(), |k: int| (found[k], j))
}

/// The pair with its components exchanged.
pub open spec fn flipped(p: (int, int)) -> (int, int) {
    (p.1, p.0)
}

/// The building of a join succeeds exactly when every left key can be
/// hashed, and then the join holds the rows, their hashes and the columns
/// of the first row.
pub proof fn lemma_build_all(params: JoinParams, left: Seq<TupleModel>)
    ensures
        match build_all(params, left) {
            Ok(m) => {
                &&& row_hashes(params.left_keys, left) == Ok::<Seq<u64>, TypeError>(m.left_hashes)
                &&& m.left == left
                &&& m.left_hashes.len() == left.len()
                &&& m.left_cols == side_columns(left, joins_nullable_spec(params.ty).0)
                &&& m.right_cols == Seq::<ColumnModel>::empty()
                &&& !m.probing
                &&& m.used == Set::<u64>::empty()
            },
            Err(e) => e is TypeError && row_hashes(params.left_keys, left) == Err::<
                Seq<u64>,
                TypeError,
            >(e->TypeError_0),
        },
    decreases left.len(),
{
    if left.len() > 0 {
        lemma_build_all(params, left.drop_last());
        match build_all(params, left.drop_last()) {
            Ok(m) => {
                match row_hash(params.left_keys, left.last()) {
                    Ok(h) => {
                        let n = m.built(left.last(), h, params.ty);
                        assert(n.left =~= left);
                        if left.len() > 1 {
                            assert(left.drop_last()[0] == left[0]);
                        }
                    },
                    Err(e) => {},
                }
            },
            Err(e) => {},
        }
    } else {
        assert(JoinModel::empty().left =~= left);
    }
}

/// Whether a join puts out every pair of halves as it is: it has no
/// filter, or it is a full join, which ignores its filter.
pub open spec fn unfiltered(params: JoinParams) -> bool {
    params.filter is None || params.ty == JoinType::Full || params.ty == JoinType::Cross
}

/// A row of every left half with one right half.
pub open spec fn plain_rows(cols: Seq<ColumnModel>, lefts: Seq<Seq<Datum>>, rvals: Seq<Datum>) -> Seq<
    TupleModel,
> {
    Seq::new(lefts.len(), |k: int| joined(cols, lefts[k] + rvals))
}

/// The join `m` after it is probed with rows whose key hashes are `rh`.
pub open spec fn probed_all(m: JoinModel, right: Seq<TupleModel>, rh: Seq<u64>, ty: JoinType) -> JoinModel {
    JoinModel {
        right_cols: if m.probing || right.len() == 0 {
            m.right_cols
        } else {
            forced(right[0].columns, joins_nullable_spec(ty).1)
        },
        probing: m.probing || right.len() > 0,
        used: m.used.union(common_hashes(m.left_hashes, rh)),
        ..m
    }
}

/// The rows an unfiltered join `m` puts out while it is probed with rows
/// whose key hashes are `rh`: for each of them in order, one row per left
/// half it is joined with.
pub open spec fn unfiltered_rows(m: JoinModel, ty: JoinType, right: Seq<TupleModel>, rh: Seq<u64>) -> Seq<
    TupleModel,
>
    decreases right.len(),
{
    if right.len() == 0 || rh.len() == 0 {
        Seq::empty()
    } else {
        unfiltered_rows(m, ty, right.drop_last(), rh.drop_last()) + plain_rows(
            m.join_columns(),
            m.left_candidates(rh.last(), ty),
            right.last().values,
        )
    }
}

/// An unfiltered join puts out every pair of halves as it is.
pub proof fn lemma_filter_all_unfiltered(
    m: JoinModel,
    params: JoinParams,
    lefts: Seq<Seq<Datum>>,
    rvals: Seq<Datum>,
)
    requires
        unfiltered(params),
    ensures
        m.filter_all(params, lefts, rvals) == Ok::<Seq<TupleModel>, ExecutorError>(
            plain_rows(m.join_columns(), lefts, rvals),
        ),
    decreases lefts.len(),
{
    if lefts.len() > 0 {
        lemma_filter_all_unfiltered(m, params, lefts.drop_last(), rvals);
        assert(plain_rows(m.join_columns(), lefts, rvals) =~= plain_rows(
            m.join_columns(),
            lefts.drop_last(),
            rvals,
        ).push(joined(m.join_columns(), lefts.last() + rvals)));
    } else {
        assert(plain_rows(m.join_columns(), lefts, rvals) =~= Seq::empty());
    }
}

/// The rows of an unfiltered join depend on the join only through its left
/// rows and its columns.
proof fn lemma_unfiltered_rows_same(
    a: JoinModel,
    b: JoinModel,
    ty: JoinType,
    right: Seq<TupleModel>,
    rh: Seq<u64>,
)
    requires
        a.left == b.left,
        a.left_hashes == b.left_hashes,
        a.left_cols == b.left_cols,
        a.right_cols == b.right_cols,
    ensures
        unfiltered_rows(a, ty, right, rh) == unfiltered_rows(b, ty, right, rh),
    decreases right.len(),
{
    if right.len() > 0 && rh.len() > 0 {
        lemma_unfiltered_rows_same(a, b, ty, right.drop_last(), rh.drop_last());
    }
}

/// A hash occurs in a sequence exactly when it has a position there.
pub proof fn lemma_positions_contains(hashes: Seq<u64>, h: u64)
    ensures
        hashes.contains(h) <==> positions(hashes, h).len() > 0,
{
    lemma_positions(hashes, h);
    if positions(hashes, h).len() > 0 {
        let i = positions(hashes, h)[0];
        assert(hashes[i] == h);
    }
    if hashes.contains(h) {
        let i = choose|i: int| 0 <= i < hashes.len() && hashes[i] == h;
        assert(positions(hashes, h).contains(i));
    }
}

/// Probing an unfiltered join succeeds exactly when every right key can be
/// hashed, and then puts out [`unfiltered_rows`].
pub proof fn lemma_probe_all_unfiltered(params: JoinParams, m: JoinModel, right: Seq<TupleModel>)
    requires
        unfiltered(params),
    ensures
        match row_hashes(params.right_keys, right) {
            Err(e) => probe_all(params, m, right) == Err::<
                (JoinModel, Seq<TupleModel>),
                ExecutorError,
            >(ExecutorError::TypeError(e)),
            Ok(rh) => {
                let after = probed_all(m, right, rh, params.ty);
                &&& rh.len() == right.len()
                &&& probe_all(params, m, right) == Ok::<(JoinModel, Seq<TupleModel>), ExecutorError>(
                    (after, unfiltered_rows(after, params.ty, right, rh)),
                )
            },
        },
    decreases right.len(),
{
    if right.len() == 0 {
        let rh = Seq::<u64>::empty();
        let after = probed_all(m, right, rh, params.ty);
        assert(common_hashes(m.left_hashes, rh) =~= Set::empty());
        assert(after.used =~= m.used);
        assert(after == m);
    } else {
        let init = right.drop_last();
        lemma_probe_all_unfiltered(params, m, init);
        match row_hashes(params.right_keys, init) {
            Err(e) => {},
            Ok(rh0) => {
                let before = probed_all(m, init, rh0, params.ty);
                match row_hash(params.right_keys, right.last()) {
                    Err(e) => {},
                    Ok(h) => {
                        let rh = rh0.push(h);
                        let step = before.probed(right.last(), h, params.ty);
                        let after = probed_all(m, right, rh, params.ty);
                        assert(rh.drop_last() =~= rh0);
                        lemma_positions_contains(m.left_hashes, h);
                        assert(step.used =~= after.used) by {
                            assert forall|x: u64| step.used.contains(x) == after.used.contains(
                                x,
                            ) by {
                                if rh0.contains(x) {
                                    let i = choose|i: int| 0 <= i < rh0.len() && rh0[i] == x;
                                    assert(rh[i] == x);
                                }
                                if rh.contains(x) && x != h {
                                    let i = choose|i: int| 0 <= i < rh.len() && rh[i] == x;
                                    assert(rh0[i] == x);
                                }
                                assert(rh[rh.len() - 1] == h);
                            }
                        }
                        if init.len() > 0 {
                            assert(init[0] == right[0]);
                        } else {
                            assert(right.last() == right[0]);
                        }
                        assert(step.right_cols == after.right_cols);
                        assert(step == after);
                        lemma_filter_all_unfiltered(
                            after,
                            params,
                            after.left_candidates(h, params.ty),
                            right.last().values,
                        );
                        if init.len() > 0 {
                            lemma_unfiltered_rows_same(before, after, params.ty, init, rh0);
                        }
                        assert(rh.last() == h);
                        assert(unfiltered_rows(after, params.ty, right, rh) == unfiltered_rows(
                            after,
                            params.ty,
                            init,
                            rh0,
                        ) + plain_rows(
                            after.join_columns(),
                            after.left_candidates(h, params.ty),
                            right.last().values,
                        ));
                    },
                }
            },
        }
    }
}

/// How many rows an unfiltered join puts out while it is probed: one per
/// matched pair and, if the join keeps unmatched right rows, one per right
/// row whose hash no left row has.
pub proof fn lemma_unfiltered_rows_len(m: JoinModel, ty: JoinType, right: Seq<TupleModel>, rh: Seq<u64>)
    requires
        right.len() == rh.len(),
    ensures
        unfiltered_rows(m, ty, right, rh).len() == matched_pairs(m.left_hashes, rh).len() + if ty
            == JoinType::Right || ty == JoinType::Full {
            count_missing(rh, m.left_hashes)
        } else {
            0nat
        },
    decreases right.len(),
{
    if right.len() > 0 {
        lemma_unfiltered_rows_len(m, ty, right.drop_last(), rh.drop_last());
        lemma_positions_contains(m.left_hashes, rh.last());
    }
}

/// How many rows a join puts out for its first `n` left rows once the
/// right input is exhausted: one per left row whose hash no right row had.
pub proof fn lemma_unmatched_left_len(m: JoinModel, rh: Seq<u64>, n: int)
    requires
        0 <= n <= m.left_hashes.len(),
        m.used == common_hashes(m.left_hashes, rh),
    ensures
        m.unmatched_left(n).len() == count_missing(m.left_hashes.take(n), rh),
    decreases n,
{
    if n > 0 {
        lemma_unmatched_left_len(m, rh, n - 1);
        let taken = m.left_hashes.take(n);
        assert(taken.drop_last() =~= m.left_hashes.take(n - 1));
        assert(taken.last() == m.left_hashes[n - 1]);
    }
}

/// A full join puts out as many rows as the inner join without filter of
/// the same inputs, and one more for every left row whose key hash no right
/// row has and for every right row whose key hash no left row has.
pub proof fn lemma_full_join_count(params: JoinParams, left: Seq<TupleModel>, right: Seq<TupleModel>)
    requires
        params.ty == JoinType::Full,
        hash_join(params, left, right) is Ok,
    ensures
        row_hashes(params.left_keys, left) is Ok,
        row_hashes(params.right_keys, right) is Ok,
        hash_join(JoinParams { ty: JoinType::Inner, filter: None, ..params }, left, right) is Ok,
        hash_join(params, left, right)->Ok_0.len() == hash_join(
            JoinParams { ty: JoinType::Inner, filter: None, ..params },
            left,
            right,
        )->Ok_0.len() + count_missing(
            row_hashes(params.left_keys, left)->Ok_0,
            row_hashes(params.right_keys, right)->Ok_0,
        ) + count_missing(
            row_hashes(params.right_keys, right)->Ok_0,
            row_hashes(params.left_keys, left)->Ok_0,
        ),
{
    let inner = JoinParams { ty: JoinType::Inner, filter: None, ..params };
    lemma_build_all(params, left);
    lemma_build_all(inner, left);
    let built = build_all(params, left)->Ok_0;
    let built_inner = build_all(inner, left)->Ok_0;
    lemma_probe_all_unfiltered(params, built, right);
    lemma_probe_all_unfiltered(inner, built_inner, right);
    let lh = row_hashes(params.left_keys, left)->Ok_0;
    let rh = row_hashes(params.right_keys, right)->Ok_0;
    let after = probed_all(built, right, rh, params.ty);
    let after_inner = probed_all(built_inner, right, rh, inner.ty);
    lemma_unfiltered_rows_len(after, params.ty, right, rh);
    lemma_unfiltered_rows_len(after_inner, inner.ty, right, rh);
    assert(after.used =~= common_hashes(lh, rh));
    lemma_unmatched_left_len(after, rh, lh.len() as int);
    assert(lh.take(lh.len() as int) =~= lh);
}

/// Every pair with its components exchanged.
pub open spec fn flip_all(pairs: Seq<(int, int)>) -> Seq<(int, int)> {
    Seq::new(pairs.len(), |k: int| flipped(pairs[k]))
}

/// One row per pair: the values of the left row of the pair followed by
/// those of its right row.
pub open spec fn pair_rows(
    cols: Seq<ColumnModel>,
    left: Seq<TupleModel>,
    right: Seq<TupleModel>,
    pairs: Seq<(int, int)>,
) -> Seq<TupleModel> {
    Seq::new(
        pairs.len(),
        |k: int| joined(cols, left[pairs[k].0].values + right[pairs[k].1].values),
    )
}

/// Every matched pair is a position in `build` and a position in `probe`
/// that hold the same hash.
pub proof fn lemma_matched_pairs_bounds(build: Seq<u64>, probe: Seq<u64>)
    ensures
        forall|k: int|
            0 <= k < matched_pairs(build, probe).len() ==> {
                let p = #[trigger] matched_pairs(build, probe)[k];
                &&& 0 <= p.0 < build.len()
                &&& 0 <= p.1 < probe.len()
                &&& build[p.0] == probe[p.1]
            },
    decreases probe.len(),
{
    if probe.len() > 0 {
        lemma_matched_pairs_bounds(build, probe.drop_last());
        lemma_positions(build, probe.last());
        let before = matched_pairs(build, probe.drop_last());
        let found = positions(build, probe.last());
        assert forall|k: int| 0 <= k < matched_pairs(build, probe).len() implies {
            let p = #[trigger] matched_pairs(build, probe)[k];
            &&& 0 <= p.0 < build.len()
            &&& 0 <= p.1 < probe.len()
            &&& build[p.0] == probe[p.1]
        } by {
            if k < before.len() {
                assert(matched_pairs(build, probe)[k] == before[k]);
            } else {
                assert(matched_pairs(build, probe)[k] == (found[k - before.len()], probe.len() - 1));
            }
        }
    }
}

proof fn lemma_paired_count(build: Seq<u64>, x: u64, n: int, a: int, b: int)
    ensures
        paired(positions(build, x), n).to_multiset().count((a, b)) == if b == n && 0 <= a
            < build.len() && build[a] == x {
            1nat
        } else {
            0nat
        },
    decreases build.len(),
{
    broadcast use group_multiset_axioms;

    if build.len() == 0 {
        assert(paired(positions(build, x), n) =~= Seq::empty());
        assert(Seq::<(int, int)>::empty().to_multiset() =~= vstd::multiset::Multiset::empty()) by {
            Seq::<(int, int)>::empty().to_multiset_ensures();
            assert(Seq::<(int, int)>::empty().to_multiset().len() == 0);
        }
    } else {
        lemma_paired_count(build.drop_last(), x, n, a, b);
        let rest = positions(build.drop_last(), x);
        if build.last() == x {
            let i = build.len() - 1;
            assert(paired(positions(build, x), n) =~= paired(rest, n).push((i, n)));
            to_multiset_build(paired(rest, n), (i, n));
        }
    }
}

proof fn lemma_pairs_count(build: Seq<u64>, probe: Seq<u64>, a: int, b: int)
    ensures
        matched_pairs(build, probe).to_multiset().count((a, b)) == if 0 <= a < build.len() && 0
            <= b < probe.len() && build[a] == probe[b] {
            1nat
        } else {
            0nat
        },
    decreases probe.len(),
{
    broadcast use group_multiset_axioms;

    if probe.len() == 0 {
        assert(Seq::<(int, int)>::empty().to_multiset() =~= vstd::multiset::Multiset::empty()) by {
            Seq::<(int, int)>::empty().to_multiset_ensures();
            assert(Seq::<(int, int)>::empty().to_multiset().len() == 0);
        }
    } else {
        lemma_pairs_count(build, probe.drop_last(), a, b);
        lemma_paired_count(build, probe.last(), probe.len() - 1, a, b);
        lemma_multiset_commutative(
            matched_pairs(build, probe.drop_last()),
            paired(positions(build, probe.last()), probe.len() - 1),
        );
    }
}

proof fn lemma_flip_count(pairs: Seq<(int, int)>, a: int, b: int)
    ensures
        flip_all(pairs).to_multiset().count((a, b)) == pairs.to_multiset().count((b, a)),
    decreases pairs.len(),
{
    broadcast use group_multiset_axioms;

    if pairs.len() == 0 {
        assert(flip_all(pairs) =~= pairs);
        pairs.to_multiset_ensures();
        assert(pairs.to_multiset().len() == 0);
        assert(pairs.to_multiset() =~= vstd::multiset::Multiset::empty());
    } else {
        let init = pairs.drop_last();
        let last = pairs.last();
        lemma_flip_count(init, a, b);
        assert(pairs =~= init.push(last));
        assert(flip_all(pairs) =~= flip_all(init).push(flipped(last)));
        to_multiset_build(init, last);
        to_multiset_build(flip_all(init), flipped(last));
        assert((flipped(last) == (a, b)) == (last == (b, a)));
        assert(pairs.to_multiset().count((b, a)) == init.to_multiset().insert(last).count((b, a)));
        assert(flip_all(pairs).to_multiset().count((a, b)) == flip_all(init).to_multiset().insert(
            flipped(last),
        ).count((a, b)));
    }
}

/// The pairs matched with `left` as the build side are, up to their order,
/// the pairs matched with `right` as the build side, each with its
/// components exchanged.
pub proof fn lemma_matched_pairs_symmetric(left: Seq<u64>, right: Seq<u64>)
    ensures
        matched_pairs(left, right).to_multiset() == flip_all(
            matched_pairs(right, left),
        ).to_multiset(),
{
    broadcast use group_multiset_axioms;

    let p = matched_pairs(left, right).to_multiset();
    let q = flip_all(matched_pairs(right, left)).to_multiset();
    assert forall|x: (int, int)| p.count(x) == q.count(x) by {
        lemma_pairs_count(left, right, x.0, x.1);
        lemma_flip_count(matched_pairs(right, left), x.0, x.1);
        lemma_pairs_count(right, left, x.1, x.0);
    }
    assert(p =~= q);
}

/// The rows an inner join without filter puts out while it is probed: one
/// per matched pair.
proof fn lemma_unfiltered_rows_inner(m: JoinModel, right: Seq<TupleModel>, rh: Seq<u64>)
    requires
        right.len() == rh.len(),
        m.left.len() == m.left_hashes.len(),
    ensures
        unfiltered_rows(m, JoinType::Inner, right, rh) == pair_rows(
            m.join_columns(),
            m.left,
            right,
            matched_pairs(m.left_hashes, rh),
        ),
    decreases right.len(),
{
    let cols = m.join_columns();
    if right.len() == 0 {
        assert(pair_rows(cols, m.left, right, matched_pairs(m.left_hashes, rh)) =~= Seq::empty());
    } else {
        let init = right.drop_last();
        let rh0 = rh.drop_last();
        lemma_unfiltered_rows_inner(m, init, rh0);
        lemma_matched_pairs_bounds(m.left_hashes, rh0);
        lemma_positions(m.left_hashes, rh.last());
        let before = matched_pairs(m.left_hashes, rh0);
        let found = positions(m.left_hashes, rh.last());
        let more = plain_rows(
            cols,
            m.left_candidates(rh.last(), JoinType::Inner),
            right.last().values,
        );
        let all = pair_rows(cols, m.left, right, matched_pairs(m.left_hashes, rh));
        let lhs = pair_rows(cols, m.left, init, before) + more;
        assert(lhs.len() == all.len());
        assert forall|k: int| 0 <= k < all.len() implies lhs[k] == all[k] by {
            if k < before.len() {
                assert(matched_pairs(m.left_hashes, rh)[k] == before[k]);
                assert(init[before[k].1] == right[before[k].1]);
            } else {
                assert(matched_pairs(m.left_hashes, rh)[k] == (
                    found[k - before.len()],
                    rh.len() - 1,
                ));
            }
        }
        assert(lhs =~= all);
    }
}

/// An inner join without filter puts out one row per pair of a left and a
/// right row with the same key hash: the values of the left row followed by
/// those of the right row. With its inputs and its keys exchanged it puts
/// out one row per pair as well, and its pairs are, up to their order, the
/// same pairs with left and right exchanged.
pub proof fn lemma_inner_join_symmetric(params: JoinParams, left: Seq<TupleModel>, right: Seq<TupleModel>)
    requires
        params.ty == JoinType::Inner,
        params.filter is None,
        hash_join(params, left, right) is Ok,
    ensures
        row_hashes(params.left_keys, left) is Ok,
        row_hashes(params.right_keys, right) is Ok,
        hash_join(params, left, right)->Ok_0 == pair_rows(
            side_columns(left, false) + side_columns(right, false),
            left,
            right,
            matched_pairs(
                row_hashes(params.left_keys, left)->Ok_0,
                row_hashes(params.right_keys, right)->Ok_0,
            ),
        ),
        hash_join(
            JoinParams { left_keys: params.right_keys, right_keys: params.left_keys, ..params },
            right,
            left,
        ) == Ok::<Seq<TupleModel>, ExecutorError>(
            pair_rows(
                side_columns(right, false) + side_columns(left, false),
                right,
                left,
                matched_pairs(
                    row_hashes(params.right_keys, right)->Ok_0,
                    row_hashes(params.left_keys, left)->Ok_0,
                ),
            ),
        ),
        matched_pairs(
            row_hashes(params.left_keys, left)->Ok_0,
            row_hashes(params.right_keys, right)->Ok_0,
        ).to_multiset() == flip_all(
            matched_pairs(
                row_hashes(params.right_keys, right)->Ok_0,
                row_hashes(params.left_keys, left)->Ok_0,
            ),
        ).to_multiset(),
{
    let swapped = JoinParams { left_keys: params.right_keys, right_keys: params.left_keys, ..params };
    lemma_build_all(params, left);
    let built = build_all(params, left)->Ok_0;
    lemma_probe_all_unfiltered(params, built, right);
    let lh = row_hashes(params.left_keys, left)->Ok_0;
    let rh = row_hashes(params.right_keys, right)->Ok_0;
    let after = probed_all(built, right, rh, params.ty);
    lemma_unfiltered_rows_inner(after, right, rh);
    assert(hash_join(params, left, right)->Ok_0 =~= unfiltered_rows(after, params.ty, right, rh));

    lemma_build_all(swapped, right);
    let built2 = build_all(swapped, right)->Ok_0;
    lemma_probe_all_unfiltered(swapped, built2, left);
    let after2 = probed_all(built2, left, lh, params.ty);
    lemma_unfiltered_rows_inner(after2, left, lh);
    assert(hash_join(swapped, right, left)->Ok_0 =~= unfiltered_rows(after2, params.ty, left, lh));

    lemma_matched_pairs_symmetric(lh, rh);
}

/// The `NULL`s of columns are a row of those columns, whatever their
/// nullability.
pub proof fn lemma_null_values_fit(cols: Seq<ColumnModel>)
    ensures
        fits_columns(null_values(cols), cols),
{
}

/// Two rows side by side are a row of their columns side by side.
pub proof fn lemma_halves_fit(
    a: Seq<Datum>,
    ca: Seq<ColumnModel>,
    b: Seq<Datum>,
    cb: Seq<ColumnModel>,
)
    requires
        fits_columns(a, ca),
        fits_columns(b, cb),
    ensures
        fits_columns(a + b, ca + cb),
{
}

/// Whether every row of one input of a join is a row of the columns of the
/// first row of that input.
pub open spec fn uniform(rows: Seq<TupleModel>) -> bool {
    forall|i: int| 0 <= i < rows.len() ==> fits_columns((#[trigger] rows[i]).values, rows[0].columns)
}

/// Whether every left row of a join is a row of its left columns.
pub open spec fn left_fits(m: JoinModel) -> bool {
    forall|i: int| 0 <= i < m.left.len() ==> fits_columns((#[trigger] m.left[i]).values, m.left_cols)
}

/// Whether every row is well formed and has the given columns.
pub open spec fn all_joined(rows: Seq<TupleModel>, cols: Seq<ColumnModel>) -> bool {
    forall|k: int| 0 <= k < rows.len() ==> (#[trigger] rows[k]).wf() && rows[k].columns == cols
}

proof fn lemma_filter_all_wf(m: JoinModel, params: JoinParams, lefts: Seq<Seq<Datum>>, rvals: Seq<Datum>)
    requires
        forall|k: int| 0 <= k < lefts.len() ==> fits_columns(#[trigger] lefts[k], m.left_cols),
        fits_columns(rvals, m.right_cols),
        m.filter_all(params, lefts, rvals) is Ok,
    ensures
        all_joined(m.filter_all(params, lefts, rvals)->Ok_0, m.join_columns()),
    decreases lefts.len(),
{
    if lefts.len() > 0 {
        let init = lefts.drop_last();
        assert forall|k: int| 0 <= k < init.len() implies fits_columns(
            #[trigger] init[k],
            m.left_cols,
        ) by {
            assert(init[k] == lefts[k]);
        }
        lemma_filter_all_wf(m, params, init, rvals);
        lemma_null_values_fit(m.left_cols);
        lemma_null_values_fit(m.right_cols);
        lemma_halves_fit(lefts.last(), m.left_cols, rvals, m.right_cols);
        lemma_halves_fit(lefts.last(), m.left_cols, null_values(m.right_cols), m.right_cols);
        lemma_halves_fit(null_values(m.left_cols), m.left_cols, rvals, m.right_cols);
    }
}

/// The rows a join puts out for a right row are well formed and have the
/// columns of the join, if the left rows are rows of its left columns and
/// the right row is a row of its right columns.
pub proof fn lemma_probe_rows_wf(m: JoinModel, params: JoinParams, t: TupleModel, h: u64)
    requires
        left_fits(m),
        m.left.len() == m.left_hashes.len(),
        fits_columns(t.values, m.right_cols),
        m.probe_rows(params, t, h) is Ok,
    ensures
        all_joined(m.probe_rows(params, t, h)->Ok_0, m.join_columns()),
{
    let lefts = m.left_candidates(h, params.ty);
    lemma_positions(m.left_hashes, h);
    lemma_null_values_fit(m.left_cols);
    assert forall|k: int| 0 <= k < lefts.len() implies fits_columns(
        #[trigger] lefts[k],
        m.left_cols,
    ) by {
        if positions(m.left_hashes, h).len() > 0 {
            let i = positions(m.left_hashes, h)[k];
            assert(lefts[k] == m.left[i].values);
        }
    }
    lemma_filter_all_wf(m, params, lefts, t.values);
}

/// The rows a join puts out once the right input is exhausted are well
/// formed and have the columns of the join, if the left rows are rows of
/// its left columns.
pub proof fn lemma_tail_wf(m: JoinModel, n: int)
    requires
        left_fits(m),
        0 <= n <= m.left.len(),
    ensures
        all_joined(m.unmatched_left(n), m.join_columns()),
    decreases n,
{
    if n > 0 {
        lemma_tail_wf(m, n - 1);
        lemma_null_values_fit(m.right_cols);
        lemma_halves_fit(m.left[n - 1].values, m.left_cols, null_values(m.right_cols), m.right_cols);
    }
}

proof fn lemma_probe_all_wf(params: JoinParams, m: JoinModel, right: Seq<TupleModel>)
    requires
        left_fits(m),
        m.left.len() == m.left_hashes.len(),
        !m.probing,
        uniform(right),
        probe_all(params, m, right) is Ok,
    ensures
        ({
            let (after, rows) = probe_all(params, m, right)->Ok_0;
            &&& after.left == m.left
            &&& after.left_hashes == m.left_hashes
            &&& after.left_cols == m.left_cols
            &&& after.probing == (right.len() > 0)
            &&& right.len() > 0 ==> after.right_cols == side_columns(
                right,
                joins_nullable_spec(params.ty).1,
            )
            &&& right.len() == 0 ==> after.right_cols == m.right_cols
            &&& right.len() > 0 ==> all_joined(rows, after.join_columns())
            &&& right.len() == 0 ==> rows.len() == 0
        }),
    decreases right.len(),
{
    if right.len() > 0 {
        let init = right.drop_last();
        assert(uniform(init)) by {
            assert forall|i: int| 0 <= i < init.len() implies fits_columns(
                (#[trigger] init[i]).values,
                init[0].columns,
            ) by {
                assert(init[i] == right[i]);
                assert(init[0] == right[0]);
            }
        }
        lemma_probe_all_wf(params, m, init);
        let (before, rows) = probe_all(params, m, init)->Ok_0;
        let h = row_hash(params.right_keys, right.last())->Ok_0;
        let after = before.probed(right.last(), h, params.ty);
        if init.len() > 0 {
            assert(init[0] == right[0]);
        }
        assert(right.last() == right[right.len() - 1]);
        assert(fits_columns(right.last().values, after.right_cols));
        lemma_probe_rows_wf(after, params, right.last(), h);
    }
}

/// Every row a hash join puts out is well formed and has the columns of
/// the join, if every row of either input is a row of the columns of the
/// first row of that input.
pub proof fn lemma_hash_join_rows_wf(params: JoinParams, left: Seq<TupleModel>, right: Seq<TupleModel>)
    requires
        uniform(left),
        uniform(right),
        hash_join(params, left, right) is Ok,
    ensures
        all_joined(
            hash_join(params, left, right)->Ok_0,
            side_columns(left, joins_nullable_spec(params.ty).0) + side_columns(
                right,
                joins_nullable_spec(params.ty).1,
            ),
        ),
{
    lemma_build_all(params, left);
    let built = build_all(params, left)->Ok_0;
    lemma_probe_all_wf(params, built, right);
    let (after, rows) = probe_all(params, built, right)->Ok_0;
    lemma_tail_wf(after, after.left.len() as int);
}

} // verus!
