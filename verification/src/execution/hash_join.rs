//! The hash join: rows of the left input are bucketed by the hash of their
//! join key, and every row of the right input is joined with the bucket of
//! its own hash.

use crate::catalog::{columns_view, ColumnModel, ColumnRef};
use crate::errors::ExecutorError;
use crate::expression::{exprs_view, ExprModel, ScalarExpression};
use crate::hashing::{
    bucket_map_get, bucket_map_insert, bucket_map_new, bucket_map_remove, hash_set_contains,
    hash_set_insert, hash_set_new, key_hash, seeded_hash, BucketMap, HashSetU64,
};
use crate::tuple::{share_columns, share_values, tuples_view, values_view, Tuple, TupleModel};
use crate::types::{share, DataValue, Datum, LogicalType, Payload, TypeError, ValueRef};
use std::sync::Arc;
use vstd::prelude::*;

verus! {

/// The seed of the hasher of join keys; both sides of a join use it.
pub const HASH_SEED: u64 = 0;

/// Which rows a join keeps: the matched pairs only, or also the rows of
/// its left, its right or both inputs that meet no row of the other.
#[derive(Clone, Copy, Debug, PartialEq, Eq, Structural)]
pub enum JoinType {
    Inner,
    Left,
    Right,
    Full,
    Cross,
}

/// What rows of the two sides are joined on.
#[derive(Debug, PartialEq, Eq)]
pub enum JoinCondition {
    /// Pairs of a left and a right key expression whose values must agree,
    /// and a predicate on the joined row.
    On { on: Vec<(ScalarExpression, ScalarExpression)>, filter: Option<ScalarExpression> },
    /// No condition at all.
    Unconditioned,
}

/// A join as it is planned: its condition and its kind.
#[derive(Debug, PartialEq, Eq)]
pub struct JoinOperator {
    pub on: JoinCondition,
    pub join_type: JoinType,
}

/// The hash join of two inputs.
#[derive(Debug)]
pub struct HashJoin {
    pub on: JoinCondition,
    pub ty: JoinType,
    pub left_input: Vec<Tuple>,
    pub right_input: Vec<Tuple>,
}

/// Whether the columns of the left and of the right side of a join may hold
/// `NULL` in its output.
pub open spec fn joins_nullable_spec(ty: JoinType) -> (bool, bool) {
    match ty {
        JoinType::Inner => (false, false),
        JoinType::Left => (false, true),
        JoinType::Right => (true, false),
        JoinType::Full => (true, true),
        JoinType::Cross => (true, true),
    }
}

/// Executable form of [`joins_nullable_spec`].
pub fn joins_nullable(ty: &JoinType) -> (r: (bool, bool))
    ensures
        r == joins_nullable_spec(*ty),
{
    match ty {
        JoinType::Inner => (false, false),
        JoinType::Left => (false, true),
        JoinType::Right => (true, false),
        JoinType::Full => (true, true),
        JoinType::Cross => (true, true),
    }
}

/// The columns with their nullability replaced.
pub open spec fn forced(cols: Seq<ColumnModel>, nullable: bool) -> Seq<ColumnModel> {
    cols.map_values(|c: ColumnModel| c.with_nullable(nullable))
}

/// One `NULL` per column, of the column's type.
pub open spec fn null_values(cols: Seq<ColumnModel>) -> Seq<Datum> {
    cols.map_values(|c: ColumnModel| Datum::null(c.datatype()))
}

/// A row of the join's output.
pub open spec fn joined(cols: Seq<ColumnModel>, values: Seq<Datum>) -> TupleModel {
    TupleModel { id: None, columns: cols, values }
}

/// The values of the key expressions on a row, or the first failure among
/// them.
pub open spec fn eval_keys(keys: Seq<ExprModel>, t: TupleModel) -> Result<Seq<Datum>, TypeError>
    decreases keys.len(),
{
    if keys.len() == 0 {
        Ok(Seq::empty())
    } else {
        match eval_keys(keys.drop_last(), t) {
            Err(e) => Err(e),
            Ok(values) => match keys.last().eval(t) {
                Err(e) => Err(e),
                Ok(v) => Ok(values.push(v)),
            },
        }
    }
}

/// The hash of the join key of a row.
pub open spec fn row_hash(keys: Seq<ExprModel>, t: TupleModel) -> Result<u64, TypeError> {
    match eval_keys(keys, t) {
        Err(e) => Err(e),
        Ok(values) => Ok(key_hash(HASH_SEED, values)),
    }
}

/// The positions of `h` in `hashes`, in increasing order.
pub open spec fn positions(hashes: Seq<u64>, h: u64) -> Seq<int>
    decreases hashes.len(),
{
    if hashes.len() == 0 {
        Seq::empty()
    } else if hashes.last() == h {
        positions(hashes.drop_last(), h).push(hashes.len() - 1)
    } else {
        positions(hashes.drop_last(), h)
    }
}

/// [`positions`] lists exactly the positions of `h`, each once and in
/// increasing order.
pub proof fn lemma_positions(hashes: Seq<u64>, h: u64)
    ensures
        forall|k: int|
            0 <= k < positions(hashes, h).len() ==> 0 <= (#[trigger] positions(hashes, h)[k])
                < hashes.len() && hashes[positions(hashes, h)[k]] == h,
        forall|j: int, k: int|
            0 <= j < k < positions(hashes, h).len() ==> positions(hashes, h)[j] < positions(
                hashes,
                h,
            )[k],
        forall|i: int|
            0 <= i < hashes.len() && hashes[i] == h ==> positions(hashes, h).contains(i),
        positions(hashes, h).len() <= hashes.len(),
    decreases hashes.len(),
{
    if hashes.len() > 0 {
        let rest = hashes.drop_last();
        lemma_positions(rest, h);
        let p = positions(hashes, h);
        let q = positions(rest, h);
        assert forall|i: int| 0 <= i < hashes.len() && hashes[i] == h implies p.contains(i) by {
            if i < rest.len() {
                assert(rest[i] == h);
                let k = choose|k: int| 0 <= k < q.len() && q[k] == i;
                assert(p[k] == i);
            } else {
                assert(p[p.len() - 1] == i);
            }
        }
    }
}

impl HashJoin {
    /// Appends the columns of `tuple` to `join_columns`, each with its
    /// nullability replaced by `force_nullable`.
    pub fn columns_filling(tuple: &Tuple, join_columns: &mut Vec<ColumnRef>, force_nullable: bool)
        ensures
            columns_view(final(join_columns)@) == columns_view(old(join_columns)@) + forced(
                tuple@.columns,
                force_nullable,
            ),
    {
        let ghost before = columns_view(join_columns@);
        let mut i: usize = 0;
        while i < tuple.columns.len()
            invariant
                i <= tuple.columns.len(),
                before == columns_view(old(join_columns)@),
                columns_view(join_columns@) == before + forced(tuple@.columns, force_nullable).take(
                    i as int,
                ),
            decreases tuple.columns.len() - i,
        {
            let ghost prev = columns_view(join_columns@);
            join_columns.push(Arc::new(tuple.columns[i].with_nullable(force_nullable)));
            proof {
                let all = forced(tuple@.columns, force_nullable);
                assert(tuple@.columns[i as int] == tuple.columns@[i as int]@);
                assert(columns_view(join_columns@) =~= prev.push(all[i as int]));
                assert(all.take(i as int + 1) =~= all.take(i as int).push(all[i as int]));
                assert(before + all.take(i as int + 1) =~= (before + all.take(i as int)).push(
                    all[i as int],
                ));
            }
            i = i + 1;
        }
        proof {
            let all = forced(tuple@.columns, force_nullable);
            assert(all.take(all.len() as int) =~= all);
        }
    }

    /// The hash of the values of the key expressions on a row, or the first
    /// failure among their evaluations.
    pub fn hash_row(on_keys: &Vec<ScalarExpression>, tuple: &Tuple) -> (r: Result<u64, TypeError>)
        ensures
            r == row_hash(exprs_view(on_keys@), tuple@),
    {
        let ghost keys = exprs_view(on_keys@);
        let mut values: Vec<ValueRef> = Vec::with_capacity(on_keys.len());
        let mut i: usize = 0;
        assert(values_view(values@) =~= Seq::empty());
        while i < on_keys.len()
            invariant
                i <= on_keys.len(),
                keys == exprs_view(on_keys@),
                eval_keys(keys.take(i as int), tuple@) matches Ok(vs) && vs == values_view(
                    values@,
                ),
            decreases on_keys.len() - i,
        {
            proof {
                assert(keys.take(i as int + 1).drop_last() =~= keys.take(i as int));
                assert(keys.take(i as int + 1).last() == on_keys@[i as int]@);
            }
            match on_keys[i].eval_column(tuple) {
                Err(e) => {
                    proof {
                        lemma_eval_keys_error(keys, i as int + 1, tuple@);
                    }
                    return Err(e);
                },
                Ok(v) => {
                    let ghost prev = values_view(values@);
                    values.push(v);
                    assert(values_view(values@) =~= prev.push(v@));
                },
            }
            i = i + 1;
        }
        assert(keys.take(on_keys.len() as int) =~= keys);
        Ok(seeded_hash(HASH_SEED, &values))
    }
}

/// A failure among the first `n` keys is the failure of all keys.
proof fn lemma_eval_keys_error(keys: Seq<ExprModel>, n: int, t: TupleModel)
    requires
        0 <= n <= keys.len(),
        eval_keys(keys.take(n), t) is Err,
    ensures
        eval_keys(keys, t) == eval_keys(keys.take(n), t),
    decreases keys.len() - n,
{
    if n < keys.len() {
        assert(keys.take(n + 1).drop_last() =~= keys.take(n));
        lemma_eval_keys_error(keys, n + 1, t);
    } else {
        assert(keys.take(n) =~= keys);
    }
}

/// The parameters of a join.
pub struct JoinParams {
    pub left_keys: Seq<ExprModel>,
    pub right_keys: Seq<ExprModel>,
    pub filter: Option<ExprModel>,
    pub ty: JoinType,
}

/// What a join in progress has gathered.
pub struct JoinModel {
    /// The rows of the left input, in their order.
    pub left: Seq<TupleModel>,
    /// The hash of the join key of each row of the left input.
    pub left_hashes: Seq<u64>,
    /// The columns of the first left row, with the nullability the join
    /// type forces on the left side.
    pub left_cols: Seq<ColumnModel>,
    /// The columns of the first right row, with the nullability the join
    /// type forces on the right side.
    pub right_cols: Seq<ColumnModel>,
    /// Whether a row of the right input has been probed.
    pub probing: bool,
    /// The hashes of the probed right rows that met a left row.
    pub used: Set<u64>,
}

impl JoinModel {
    /// A join that has seen no row.
    pub open spec fn empty() -> JoinModel {
        JoinModel {
            left: Seq::empty(),
            left_hashes: Seq::empty(),
            left_cols: Seq::empty(),
            right_cols: Seq::empty(),
            probing: false,
            used: Set::empty(),
        }
    }

    /// The columns of every row the join puts out.
    pub open spec fn join_columns(self) -> Seq<ColumnModel> {
        self.left_cols + self.right_cols
    }

    /// The join after a left row with key hash `h` is added to the build
    /// side.
    pub open spec fn built(self, t: TupleModel, h: u64, ty: JoinType) -> JoinModel {
        JoinModel {
            left: self.left.push(t),
            left_hashes: self.left_hashes.push(h),
            left_cols: if self.left.len() == 0 {
                forced(t.columns, joins_nullable_spec(ty).0)
            } else {
                self.left_cols
            },
            ..self
        }
    }

    /// The join after a right row with key hash `h` is probed.
    pub open spec fn probed(self, t: TupleModel, h: u64, ty: JoinType) -> JoinModel {
        JoinModel {
            right_cols: if self.probing {
                self.right_cols
            } else {
                forced(t.columns, joins_nullable_spec(ty).1)
            },
            probing: true,
            used: if positions(self.left_hashes, h).len() > 0 {
                self.used.insert(h)
            } else {
                self.used
            },
            ..self
        }
    }

    /// The left halves a right row with key hash `h` is joined with: the
    /// values of the left rows with that hash, in their order; or, if there
    /// is none and the join keeps unmatched right rows, one row of `NULL`s.
    pub open spec fn left_candidates(self, h: u64, ty: JoinType) -> Seq<Seq<Datum>> {
        let found = positions(self.left_hashes, h);
        if found.len() > 0 {
            found.map_values(|i: int| self.left[i].values)
        } else if ty == JoinType::Right || ty == JoinType::Full {
            seq![null_values(self.left_cols)]
        } else {
            Seq::empty()
        }
    }

    /// The output row of one pair of a left and a right half.
    ///
    /// Without a filter, and in a full join, the row is the two halves side
    /// by side. Otherwise the filter is evaluated on that row: if it is
    /// true the row is kept; if it is false or `NULL`, a left join keeps the
    /// row with `NULL`s for its right half, a right join keeps it with
    /// `NULL`s for its left half, and an inner join drops it. A filter that
    /// fails, or yields a value that is not a Boolean, fails the join.
    pub open spec fn filter_one(self, params: JoinParams, lvals: Seq<Datum>, rvals: Seq<Datum>) -> Result<
        Option<TupleModel>,
        ExecutorError,
    > {
        let row = joined(self.join_columns(), lvals + rvals);
        match params.filter {
            Some(f) if params.ty != JoinType::Full && params.ty != JoinType::Cross => match f.eval(row) {
                Err(e) => Err(ExecutorError::TypeError(e)),
                Ok(v) => if v.ty != LogicalType::Boolean {
                    Err(ExecutorError::NonBooleanPredicate)
                } else if v.payload == Some(Payload::Bool(true)) {
                    Ok(Some(row))
                } else if params.ty == JoinType::Left {
                    Ok(Some(joined(self.join_columns(), lvals + null_values(self.right_cols))))
                } else if params.ty == JoinType::Right {
                    Ok(Some(joined(self.join_columns(), null_values(self.left_cols) + rvals)))
                } else {
                    Ok(None)
                },
            },
            _ => Ok(Some(row)),
        }
    }

    /// The output rows of the pairs of each of `lefts` with one right half,
    /// in order, or the first failure among them.
    pub open spec fn filter_all(
        self,
        params: JoinParams,
        lefts: Seq<Seq<Datum>>,
        rvals: Seq<Datum>,
    ) -> Result<Seq<TupleModel>, ExecutorError>
        decreases lefts.len(),
    {
        if lefts.len() == 0 {
            Ok(Seq::empty())
        } else {
            match self.filter_all(params, lefts.drop_last(), rvals) {
                Err(e) => Err(e),
                Ok(rows) => match self.filter_one(params, lefts.last(), rvals) {
                    Err(e) => Err(e),
                    Ok(Some(row)) => Ok(rows.push(row)),
                    Ok(None) => Ok(rows),
                },
            }
        }
    }

    /// The rows put out for a right row with key hash `h`, where `self` is
    /// the join after that row is probed.
    pub open spec fn probe_rows(self, params: JoinParams, t: TupleModel, h: u64) -> Result<
        Seq<TupleModel>,
        ExecutorError,
    > {
        self.filter_all(params, self.left_candidates(h, params.ty), t.values)
    }

    /// The rows put out for those of the first `n` left rows whose key hash
    /// no probed right row had: each with `NULL`s for its right half, in the
    /// order of the left input.
    pub open spec fn unmatched_left(self, n: int) -> Seq<TupleModel>
        decreases n,
    {
        if n <= 0 {
            Seq::empty()
        } else if self.used.contains(self.left_hashes[n - 1]) {
            self.unmatched_left(n - 1)
        } else {
            self.unmatched_left(n - 1).push(
                joined(self.join_columns(), self.left[n - 1].values + null_values(self.right_cols)),
            )
        }
    }

    /// The rows put out once the right input is exhausted.
    pub open spec fn tail(self, ty: JoinType) -> Seq<TupleModel> {
        if ty == JoinType::Left || ty == JoinType::Full {
            self.unmatched_left(self.left.len() as int)
        } else {
            Seq::empty()
        }
    }
}

/// The model of the outcome of an operator that yields rows.
pub open spec fn rows_result(r: Result<Vec<Tuple>, ExecutorError>) -> Result<
    Seq<TupleModel>,
    ExecutorError,
> {
    match r {
        Ok(rows) => Ok(tuples_view(rows@)),
        Err(e) => Err(e),
    }
}

/// Whether a bucket of the hash table lists the given positions.
pub open spec fn bucket_lists(bucket: Seq<usize>, found: Seq<int>) -> bool {
    &&& bucket.len() == found.len()
    &&& forall|k: int| 0 <= k < bucket.len() ==> bucket[k] == found[k]
}

/// A hash join that is fed one row at a time: first every row of the left
/// input, then every row of the right input.
pub struct HashJoinState {
    on_left_keys: Vec<ScalarExpression>,
    on_right_keys: Vec<ScalarExpression>,
    filter: Option<ScalarExpression>,
    ty: JoinType,
    join_columns: Vec<ColumnRef>,
    left_width: usize,
    right_init_flag: bool,
    left_tuples: Vec<Tuple>,
    left_hashes: Vec<u64>,
    left_map: BucketMap,
    used_set: HashSetU64,
}

impl View for HashJoinState {
    type V = JoinModel;

    closed spec fn view(&self) -> JoinModel {
        JoinModel {
            left: tuples_view(self.left_tuples@),
            left_hashes: self.left_hashes@,
            left_cols: columns_view(self.join_columns@).take(self.left_width as int),
            right_cols: columns_view(self.join_columns@).skip(self.left_width as int),
            probing: self.right_init_flag,
            used: self.used_set@,
        }
    }
}

impl HashJoinState {
    /// The parameters of the join.
    pub closed spec fn params(&self) -> JoinParams {
        JoinParams {
            left_keys: exprs_view(self.on_left_keys@),
            right_keys: exprs_view(self.on_right_keys@),
            filter: match self.filter {
                Some(f) => Some(f@),
                None => None,
            },
            ty: self.ty,
        }
    }

    /// The invariant of the join: the hash table lists, for every hash, the
    /// positions of the left rows that have it.
    pub closed spec fn wf(&self) -> bool {
        &&& self.left_hashes.len() == self.left_tuples.len()
        &&& self.left_width <= self.join_columns.len()
        &&& self.left_tuples.len() == 0 ==> self.left_width == 0
        &&& !self.right_init_flag ==> self.left_width == self.join_columns.len()
        &&& forall|h: u64| #[trigger]
            self.left_map@.contains_key(h) <==> positions(self.left_hashes@, h).len() > 0
        &&& forall|h: u64| #[trigger]
            self.left_map@.contains_key(h) ==> bucket_lists(
                self.left_map@[h]@,
                positions(self.left_hashes@, h),
            )
    }

    /// A join of the given kind that has seen no row.
    pub fn new(
        on_left_keys: Vec<ScalarExpression>,
        on_right_keys: Vec<ScalarExpression>,
        filter: Option<ScalarExpression>,
        ty: JoinType,
    ) -> (r: HashJoinState)
        ensures
            r.wf(),
            r@ == JoinModel::empty(),
            r.params() == (JoinParams {
                left_keys: exprs_view(on_left_keys@),
                right_keys: exprs_view(on_right_keys@),
                filter: match filter {
                    Some(f) => Some(f@),
                    None => None,
                },
                ty,
            }),
    {
        let r = HashJoinState {
            on_left_keys,
            on_right_keys,
            filter,
            ty,
            join_columns: Vec::new(),
            left_width: 0,
            right_init_flag: false,
            left_tuples: Vec::new(),
            left_hashes: Vec::new(),
            left_map: bucket_map_new(),
            used_set: hash_set_new(),
        };
        proof {
            assert(r@.left =~= Seq::empty());
            assert(r@.left_cols =~= Seq::empty());
            assert(r@.right_cols =~= Seq::empty());
        }
        r
    }

    /// How many rows of the left input the build side holds.
    pub fn len(&self) -> (r: usize)
        ensures
            r == self@.left.len(),
    {
        self.left_tuples.len()
    }

    /// Whether a row of the right input has been probed.
    pub fn probing(&self) -> (r: bool)
        ensures
            r == self@.probing,
    {
        self.right_init_flag
    }

    /// Adds a row of the left input to the build side. If the hash of its
    /// join key cannot be computed, the join is unchanged and the failure
    /// is returned.
    pub fn build(&mut self, tuple: Tuple) -> (r: Result<(), ExecutorError>)
        requires
            old(self).wf(),
            !old(self)@.probing,
            old(self)@.left.len() < usize::MAX,
        ensures
            final(self).wf(),
            final(self).params() == old(self).params(),
            match row_hash(old(self).params().left_keys, tuple@) {
                Err(e) => r == Err::<(), ExecutorError>(ExecutorError::TypeError(e)) && final(self)@
                    == old(self)@,
                Ok(h) => r is Ok && final(self)@ == old(self)@.built(
                    tuple@,
                    h,
                    old(self).params().ty,
                ),
            },
    {
        match HashJoin::hash_row(&self.on_left_keys, &tuple) {
            Err(e) => Err(ExecutorError::TypeError(e)),
            Ok(h) => {
                self.build_hashed(tuple, h);
                Ok(())
            },
        }
    }

    /// Adds a row of the left input, whose join key has the hash `h`, to
    /// the build side.
    pub fn build_hashed(&mut self, tuple: Tuple, h: u64)
        requires
            old(self).wf(),
            !old(self)@.probing,
            old(self)@.left.len() < usize::MAX,
        ensures
            final(self).wf(),
            final(self).params() == old(self).params(),
            final(self)@ == old(self)@.built(tuple@, h, old(self).params().ty),
    {
        let ghost before = *self;
        let index = self.left_tuples.len();
        if index == 0 {
            let (left_force_nullable, _) = joins_nullable(&self.ty);
            HashJoin::columns_filling(&tuple, &mut self.join_columns, left_force_nullable);
            self.left_width = self.join_columns.len();
        }
        let mut bucket = match bucket_map_remove(&mut self.left_map, h) {
            Some(b) => b,
            None => Vec::new(),
        };
        bucket.push(index);
        bucket_map_insert(&mut self.left_map, h, bucket);
        self.left_tuples.push(tuple);
        self.left_hashes.push(h);
        proof {
            let old_hashes = before.left_hashes@;
            let new_hashes = self.left_hashes@;
            assert(new_hashes.drop_last() =~= old_hashes);
            assert forall|g: u64| #[trigger]
                self.left_map@.contains_key(g) <==> positions(new_hashes, g).len() > 0 by {
                assert(before.left_map@.contains_key(g) <==> positions(old_hashes, g).len() > 0);
            }
            assert forall|g: u64| #[trigger] self.left_map@.contains_key(g) implies bucket_lists(
                self.left_map@[g]@,
                positions(new_hashes, g),
            ) by {
                if before.left_map@.contains_key(g) {
                    assert(bucket_lists(before.left_map@[g]@, positions(old_hashes, g)));
                }
            }
            assert(self@.left =~= before@.left.push(tuple@));
            assert(self@.left_hashes =~= before@.left_hashes.push(h));
            if index == 0 {
                assert(columns_view(before.join_columns@) =~= Seq::empty());
                assert(self@.left_cols =~= forced(tuple@.columns, joins_nullable_spec(self.ty).0));
                assert(self@.right_cols =~= Seq::empty());
                assert(before@.right_cols =~= Seq::empty());
            }
        }
    }
}

/// One `NULL` per column of `cols[from..to]`, of the column's type.
fn null_row(cols: &Vec<ColumnRef>, from: usize, to: usize) -> (r: Vec<ValueRef>)
    requires
        from <= to <= cols.len(),
    ensures
        values_view(r@) == null_values(columns_view(cols@).subrange(from as int, to as int)),
{
    let ghost want = null_values(columns_view(cols@).subrange(from as int, to as int));
    let mut out: Vec<ValueRef> = Vec::with_capacity(to - from);
    let mut i: usize = from;
    assert(values_view(out@) =~= want.take(0));
    while i < to
        invariant
            from <= i <= to <= cols.len(),
            want == null_values(columns_view(cols@).subrange(from as int, to as int)),
            values_view(out@) == want.take(i - from),
        decreases to - i,
    {
        let ghost prev = values_view(out@);
        out.push(Arc::new(DataValue::none(cols[i].datatype())));
        proof {
            assert(values_view(out@) =~= prev.push(want[i - from]));
            assert(want.take(i - from + 1) =~= want.take(i - from).push(want[i - from]));
        }
        i = i + 1;
    }
    assert(want.take(to - from) =~= want);
    out
}

/// The values of `left` followed by those of `right`.
fn concat_values(left: &Vec<ValueRef>, right: &Vec<ValueRef>) -> (r: Vec<ValueRef>)
    ensures
        values_view(r@) == values_view(left@) + values_view(right@),
{
    let mut out = share_values(left);
    let mut i: usize = 0;
    assert(values_view(out@) =~= values_view(left@) + values_view(right@).take(0));
    while i < right.len()
        invariant
            i <= right.len(),
            values_view(out@) == values_view(left@) + values_view(right@).take(i as int),
        decreases right.len() - i,
    {
        let ghost prev = values_view(out@);
        out.push(share(&right[i]));
        proof {
            assert(values_view(out@) =~= prev.push(right@[i as int]@));
            assert(values_view(right@).take(i as int + 1) =~= values_view(right@).take(
                i as int,
            ).push(right@[i as int]@));
        }
        i = i + 1;
    }
    assert(values_view(right@).take(right.len() as int) =~= values_view(right@));
    out
}

impl HashJoinState {
    /// The output row of one pair of a left and a right half; see
    /// [`JoinModel::filter_one`].
    fn emit(&self, lvals: &Vec<ValueRef>, rvals: &Vec<ValueRef>) -> (r: Result<
        Option<Tuple>,
        ExecutorError,
    >)
        requires
            self.wf(),
        ensures
            match r {
                Ok(Some(t)) => self@.filter_one(self.params(), values_view(lvals@), values_view(rvals@))
                    == Ok::<Option<TupleModel>, ExecutorError>(Some(t@)),
                Ok(None) => self@.filter_one(self.params(), values_view(lvals@), values_view(rvals@))
                    == Ok::<Option<TupleModel>, ExecutorError>(None),
                Err(e) => self@.filter_one(self.params(), values_view(lvals@), values_view(rvals@))
                    == Err::<Option<TupleModel>, ExecutorError>(e),
            },
    {
        proof {
            let cols = columns_view(self.join_columns@);
            assert(cols.take(self.left_width as int) + cols.skip(self.left_width as int) =~= cols);
            assert(cols.take(self.left_width as int) =~= cols.subrange(
                0,
                self.left_width as int,
            ));
            assert(cols.skip(self.left_width as int) =~= cols.subrange(
                self.left_width as int,
                cols.len() as int,
            ));
        }
        let row = Tuple {
            id: None,
            columns: share_columns(&self.join_columns),
            values: concat_values(lvals, rvals),
        };
        let filtered = match self.ty {
            JoinType::Full | JoinType::Cross => false,
            _ => self.filter.is_some(),
        };
        if !filtered {
            return Ok(Some(row));
        }
        match &self.filter {
            None => Ok(Some(row)),
            Some(expr) => match expr.eval_column(&row) {
                Err(e) => Err(ExecutorError::TypeError(e)),
                Ok(v) => match &*v {
                    DataValue::Boolean(Some(true)) => Ok(Some(row)),
                    DataValue::Boolean(_) => match self.ty {
                        JoinType::Left => {
                            let nulls = null_row(
                                &self.join_columns,
                                self.left_width,
                                self.join_columns.len(),
                            );
                            Ok(
                                Some(
                                    Tuple {
                                        id: None,
                                        columns: share_columns(&self.join_columns),
                                        values: concat_values(lvals, &nulls),
                                    },
                                ),
                            )
                        },
                        JoinType::Right => {
                            let nulls = null_row(&self.join_columns, 0, self.left_width);
                            Ok(
                                Some(
                                    Tuple {
                                        id: None,
                                        columns: share_columns(&self.join_columns),
                                        values: concat_values(&nulls, rvals),
                                    },
                                ),
                            )
                        },
                        _ => Ok(None),
                    },
                    _ => Err(ExecutorError::NonBooleanPredicate),
                },
            },
        }
    }

    /// Probes the build side with a row of the right input and returns the
    /// rows the join puts out for it. If the hash of its join key cannot be
    /// computed, the join is unchanged and the failure is returned.
    pub fn probe(&mut self, tuple: Tuple) -> (r: Result<Vec<Tuple>, ExecutorError>)
        requires
            old(self).wf(),
        ensures
            final(self).wf(),
            final(self).params() == old(self).params(),
            match row_hash(old(self).params().right_keys, tuple@) {
                Err(e) => r == Err::<Vec<Tuple>, ExecutorError>(ExecutorError::TypeError(e))
                    && final(self)@ == old(self)@,
                Ok(h) => final(self)@ == old(self)@.probed(tuple@, h, old(self).params().ty)
                    && rows_result(r) == final(self)@.probe_rows(old(self).params(), tuple@, h),
            },
    {
        match HashJoin::hash_row(&self.on_right_keys, &tuple) {
            Err(e) => Err(ExecutorError::TypeError(e)),
            Ok(h) => self.probe_hashed(tuple, h),
        }
    }

    /// Probes the build side with a row of the right input whose join key
    /// has the hash `h`, and returns the rows the join puts out for it; see
    /// [`JoinModel::probed`] and [`JoinModel::probe_rows`].
    pub fn probe_hashed(&mut self, tuple: Tuple, h: u64) -> (r: Result<Vec<Tuple>, ExecutorError>)
        requires
            old(self).wf(),
        ensures
            final(self).wf(),
            final(self).params() == old(self).params(),
            final(self)@ == old(self)@.probed(tuple@, h, old(self).params().ty),
            rows_result(r) == final(self)@.probe_rows(old(self).params(), tuple@, h),
    {
        let ghost before = *self;
        if !self.right_init_flag {
            let (_, right_force_nullable) = joins_nullable(&self.ty);
            HashJoin::columns_filling(&tuple, &mut self.join_columns, right_force_nullable);
            self.right_init_flag = true;
        }
        if bucket_map_get(&self.left_map, h).is_some() {
            hash_set_insert(&mut self.used_set, h);
        }
        proof {
            let old_cols = columns_view(before.join_columns@);
            let cols = columns_view(self.join_columns@);
            let w = self.left_width as int;
            assert(cols.take(w) =~= old_cols.take(w));
            if before.right_init_flag {
                assert(cols.skip(w) =~= old_cols.skip(w));
            } else {
                assert(cols.skip(w) =~= forced(tuple@.columns, joins_nullable_spec(self.ty).1));
            }
            assert(before.left_map@.contains_key(h) <==> positions(before.left_hashes@, h).len()
                > 0);
            assert(self@ == before@.probed(tuple@, h, self.ty));
        }
        let ghost params = self.params();
        let ghost model = self@;
        let ghost lefts = model.left_candidates(h, params.ty);
        let mut out: Vec<Tuple> = Vec::new();
        match bucket_map_get(&self.left_map, h) {
            Some(bucket) => {
                proof {
                    lemma_positions(self.left_hashes@, h);
                    assert(bucket_lists(bucket@, positions(self.left_hashes@, h)));
                }
                let mut k: usize = 0;
                assert(tuples_view(out@) =~= Seq::empty());
                assert(lefts.take(0) =~= Seq::empty());
                while k < bucket.len()
                    invariant
                        k <= bucket.len(),
                        self.wf(),
                        params == self.params(),
                        params == old(self).params(),
                        model == self@,
                        model == old(self)@.probed(tuple@, h, params.ty),
                        lefts == model.left_candidates(h, params.ty),
                        lefts.len() == bucket.len(),
                        positions(self.left_hashes@, h).len() > 0,
                        bucket_lists(bucket@, positions(self.left_hashes@, h)),
                        forall|j: int|
                            0 <= j < bucket.len() ==> 0 <= #[trigger] positions(
                                self.left_hashes@,
                                h,
                            )[j] < self.left_hashes.len(),
                        self.left_hashes.len() == self.left_tuples.len(),
                        model.filter_all(params, lefts.take(k as int), tuple@.values) matches Ok(rows)
                            && rows == tuples_view(out@),
                    decreases bucket.len() - k,
                {
                    let index = bucket[k];
                    assert(index == positions(self.left_hashes@, h)[k as int]);
                    let left = &self.left_tuples[index];
                    proof {
                        assert(lefts.take(k as int + 1).drop_last() =~= lefts.take(k as int));
                        assert(lefts.take(k as int + 1).last() == lefts[k as int]);
                        assert(lefts[k as int] == model.left[index as int].values);
                        assert(model.left[index as int] == self.left_tuples@[index as int]@);
                    }
                    match self.emit(&left.values, &tuple.values) {
                        Err(e) => {
                            proof {
                                lemma_filter_all_error(
                                    model,
                                    params,
                                    lefts,
                                    k as int + 1,
                                    tuple@.values,
                                );
                            }
                            return Err(e);
                        },
                        Ok(Some(row)) => {
                            let ghost prev = tuples_view(out@);
                            out.push(row);
                            assert(tuples_view(out@) =~= prev.push(row@));
                        },
                        Ok(None) => {},
                    }
                    k = k + 1;
                }
                assert(lefts.take(bucket.len() as int) =~= lefts);
            },
            None => {
                match self.ty {
                    JoinType::Right | JoinType::Full => {
                        let nulls = null_row(&self.join_columns, 0, self.left_width);
                        proof {
                            let cols = columns_view(self.join_columns@);
                            assert(cols.take(self.left_width as int) =~= cols.subrange(
                                0,
                                self.left_width as int,
                            ));
                            assert(lefts =~= seq![values_view(nulls@)]);
                            assert(lefts.drop_last() =~= Seq::empty());
                            assert(model.filter_all(params, lefts.drop_last(), tuple@.values)
                                == Ok::<Seq<TupleModel>, ExecutorError>(Seq::empty()));
                        }
                        match self.emit(&nulls, &tuple.values) {
                            Err(e) => {
                                return Err(e);
                            },
                            Ok(Some(row)) => {
                                out.push(row);
                                assert(tuples_view(out@) =~= Seq::<TupleModel>::empty().push(row@));
                            },
                            Ok(None) => {
                                assert(tuples_view(out@) =~= Seq::empty());
                            },
                        }
                    },
                    _ => {
                        assert(tuples_view(out@) =~= Seq::empty());
                    },
                }
            },
        }
        Ok(out)
    }

    /// The rows the join puts out once the right input is exhausted; see
    /// [`JoinModel::tail`].
    pub fn finish(&self) -> (r: Vec<Tuple>)
        requires
            self.wf(),
        ensures
            tuples_view(r@) == self@.tail(self.params().ty),
    {
        let mut out: Vec<Tuple> = Vec::new();
        assert(tuples_view(out@) =~= Seq::empty());
        match self.ty {
            JoinType::Left | JoinType::Full => {},
            _ => {
                return out;
            },
        }
        let nulls = null_row(&self.join_columns, self.left_width, self.join_columns.len());
        proof {
            let cols = columns_view(self.join_columns@);
            assert(cols.take(self.left_width as int) + cols.skip(self.left_width as int) =~= cols);
            assert(cols.skip(self.left_width as int) =~= cols.subrange(
                self.left_width as int,
                cols.len() as int,
            ));
        }
        let mut i: usize = 0;
        while i < self.left_tuples.len()
            invariant
                i <= self.left_tuples.len(),
                self.wf(),
                self.left_hashes.len() == self.left_tuples.len(),
                values_view(nulls@) == null_values(self@.right_cols),
                columns_view(self.join_columns@) == self@.join_columns(),
                tuples_view(out@) == self@.unmatched_left(i as int),
            decreases self.left_tuples.len() - i,
        {
            if !hash_set_contains(&self.used_set, self.left_hashes[i]) {
                let left = &self.left_tuples[i];
                let row = Tuple {
                    id: None,
                    columns: share_columns(&self.join_columns),
                    values: concat_values(&left.values, &nulls),
                };
                let ghost prev = tuples_view(out@);
                out.push(row);
                proof {
                    assert(self@.left[i as int] == left@);
                    assert(tuples_view(out@) =~= prev.push(row@));
                }
            }
            i = i + 1;
        }
        out
    }
}

/// A failure among the first `n` pairs is the failure of all pairs.
proof fn lemma_filter_all_error(
    m: JoinModel,
    params: JoinParams,
    lefts: Seq<Seq<Datum>>,
    n: int,
    rvals: Seq<Datum>,
)
    requires
        0 <= n <= lefts.len(),
        m.filter_all(params, lefts.take(n), rvals) is Err,
    ensures
        m.filter_all(params, lefts, rvals) == m.filter_all(params, lefts.take(n), rvals),
    decreases lefts.len() - n,
{
    if n < lefts.len() {
        assert(lefts.take(n + 1).drop_last() =~= lefts.take(n));
        lemma_filter_all_error(m, params, lefts, n + 1, rvals);
    } else {
        assert(lefts.take(n) =~= lefts);
    }
}

/// The join after every row of `left` is added to the build side, or the
/// first failure to hash a join key.
pub open spec fn build_all(params: JoinParams, left: Seq<TupleModel>) -> Result<JoinModel, ExecutorError>
    decreases left.len(),
{
    if left.len() == 0 {
        Ok(JoinModel::empty())
    } else {
        match build_all(params, left.drop_last()) {
            Err(e) => Err(e),
            Ok(m) => match row_hash(params.left_keys, left.last()) {
                Err(e) => Err(ExecutorError::TypeError(e)),
                Ok(h) => Ok(m.built(left.last(), h, params.ty)),
            },
        }
    }
}

/// The join after every row of `right` is probed, and the rows put out for
/// them in order; or the first failure.
pub open spec fn probe_all(params: JoinParams, m: JoinModel, right: Seq<TupleModel>) -> Result<
    (JoinModel, Seq<TupleModel>),
    ExecutorError,
>
    decreases right.len(),
{
    if right.len() == 0 {
        Ok((m, Seq::empty()))
    } else {
        match probe_all(params, m, right.drop_last()) {
            Err(e) => Err(e),
            Ok((before, rows)) => match row_hash(params.right_keys, right.last()) {
                Err(e) => Err(ExecutorError::TypeError(e)),
                Ok(h) => {
                    let after = before.probed(right.last(), h, params.ty);
                    match after.probe_rows(params, right.last(), h) {
                        Err(e) => Err(e),
                        Ok(more) => Ok((after, rows + more)),
                    }
                },
            },
        }
    }
}

/// The rows of the hash join of `left` and `right`: those put out while the
/// right input is probed, then those for the left rows that met no right
/// row; or the first failure.
pub open spec fn hash_join(params: JoinParams, left: Seq<TupleModel>, right: Seq<TupleModel>) -> Result<
    Seq<TupleModel>,
    ExecutorError,
> {
    match build_all(params, left) {
        Err(e) => Err(e),
        Ok(built) => match probe_all(params, built, right) {
            Err(e) => Err(e),
            Ok((probed, rows)) => Ok(rows + probed.tail(params.ty)),
        },
    }
}

/// A failure while building from the first `n` rows is the failure of the
/// whole build.
proof fn lemma_build_all_error(params: JoinParams, left: Seq<TupleModel>, n: int)
    requires
        0 <= n <= left.len(),
        build_all(params, left.take(n)) is Err,
    ensures
        build_all(params, left) == build_all(params, left.take(n)),
    decreases left.len() - n,
{
    if n < left.len() {
        assert(left.take(n + 1).drop_last() =~= left.take(n));
        lemma_build_all_error(params, left, n + 1);
    } else {
        assert(left.take(n) =~= left);
    }
}

/// A failure while probing with the first `n` rows is the failure of the
/// whole probe.
proof fn lemma_probe_all_error(params: JoinParams, m: JoinModel, right: Seq<TupleModel>, n: int)
    requires
        0 <= n <= right.len(),
        probe_all(params, m, right.take(n)) is Err,
    ensures
        probe_all(params, m, right) == probe_all(params, m, right.take(n)),
    decreases right.len() - n,
{
    if n < right.len() {
        assert(right.take(n + 1).drop_last() =~= right.take(n));
        lemma_probe_all_error(params, m, right, n + 1);
    } else {
        assert(right.take(n) =~= right);
    }
}

/// The left key expressions of a list of key pairs.
pub open spec fn left_keys_of(on: Seq<(ScalarExpression, ScalarExpression)>) -> Seq<ExprModel> {
    on.map_values(|p: (ScalarExpression, ScalarExpression)| p.0@)
}

/// The right key expressions of a list of key pairs.
pub open spec fn right_keys_of(on: Seq<(ScalarExpression, ScalarExpression)>) -> Seq<ExprModel> {
    on.map_values(|p: (ScalarExpression, ScalarExpression)| p.1@)
}

/// The model of an optional expression.
pub open spec fn option_expr_view(e: Option<ScalarExpression>) -> Option<ExprModel> {
    match e {
        Some(f) => Some(f@),
        None => None,
    }
}

/// Splits a list of key pairs into the list of left keys and the list of
/// right keys.
fn unzip_keys(on: Vec<(ScalarExpression, ScalarExpression)>) -> (r: (
    Vec<ScalarExpression>,
    Vec<ScalarExpression>,
))
    ensures
        exprs_view(r.0@) == left_keys_of(on@),
        exprs_view(r.1@) == right_keys_of(on@),
{
    let ghost pairs = on@;
    let mut on = on;
    let mut back_left: Vec<ScalarExpression> = Vec::new();
    let mut back_right: Vec<ScalarExpression> = Vec::new();
    while on.len() > 0
        invariant
            on.len() <= pairs.len(),
            on@ == pairs.take(on.len() as int),
            back_left.len() == pairs.len() - on.len(),
            back_right.len() == pairs.len() - on.len(),
            forall|j: int|
                0 <= j < back_left.len() ==> (#[trigger] back_left@[j])@ == pairs[pairs.len() - 1
                    - j].0@,
            forall|j: int|
                0 <= j < back_right.len() ==> (#[trigger] back_right@[j])@ == pairs[pairs.len() - 1
                    - j].1@,
        decreases on.len(),
    {
        let ghost n = on.len();
        match on.pop() {
            Some((l, r)) => {
                assert(on@ =~= pairs.take(n - 1));
                back_left.push(l);
                back_right.push(r);
            },
            None => {},
        }
    }
    let mut left: Vec<ScalarExpression> = Vec::new();
    let mut right: Vec<ScalarExpression> = Vec::new();
    while back_left.len() > 0 && back_right.len() > 0
        invariant
            back_left.len() == back_right.len(),
            back_left.len() <= pairs.len(),
            left.len() == pairs.len() - back_left.len(),
            right.len() == left.len(),
            forall|j: int|
                0 <= j < back_left.len() ==> (#[trigger] back_left@[j])@ == pairs[pairs.len() - 1
                    - j].0@,
            forall|j: int|
                0 <= j < back_right.len() ==> (#[trigger] back_right@[j])@ == pairs[pairs.len() - 1
                    - j].1@,
            forall|j: int| 0 <= j < left.len() ==> (#[trigger] left@[j])@ == pairs[j].0@,
            forall|j: int| 0 <= j < right.len() ==> (#[trigger] right@[j])@ == pairs[j].1@,
        decreases back_left.len(),
    {
        let ghost n = back_left.len();
        let ghost old_left = back_left@;
        let ghost old_right = back_right@;
        match (back_left.pop(), back_right.pop()) {
            (Some(l), Some(r)) => {
                assert(l == old_left[n - 1]);
                assert(r == old_right[n - 1]);
                left.push(l);
                right.push(r);
            },
            _ => {},
        }
    }
    assert(exprs_view(left@) =~= left_keys_of(pairs));
    assert(exprs_view(right@) =~= right_keys_of(pairs));
    (left, right)
}

impl From<(JoinOperator, Vec<Tuple>, Vec<Tuple>)> for HashJoin {
    /// A hash join of a left and a right input under an operator.
    fn from(v: (JoinOperator, Vec<Tuple>, Vec<Tuple>)) -> (r: HashJoin) {
        let (JoinOperator { on, join_type }, left_input, right_input) = v;
        HashJoin { on, ty: join_type, left_input, right_input }
    }
}

impl vstd::std_specs::convert::FromSpecImpl<(JoinOperator, Vec<Tuple>, Vec<Tuple>)> for HashJoin {
    open spec fn obeys_from_spec() -> bool {
        true
    }

    open spec fn from_spec(v: (JoinOperator, Vec<Tuple>, Vec<Tuple>)) -> HashJoin {
        HashJoin { on: v.0.on, ty: v.0.join_type, left_input: v.1, right_input: v.2 }
    }
}

impl HashJoin {
    /// The parameters of the join.
    pub open spec fn params(&self) -> JoinParams {
        match self.on {
            JoinCondition::On { on, filter } => JoinParams {
                left_keys: left_keys_of(on@),
                right_keys: right_keys_of(on@),
                filter: option_expr_view(filter),
                ty: self.ty,
            },
            JoinCondition::Unconditioned => JoinParams {
                left_keys: Seq::empty(),
                right_keys: Seq::empty(),
                filter: None,
                ty: self.ty,
            },
        }
    }

    /// Whether the operator is one a hash join can run: it has a condition
    /// and is not a cross join.
    pub open spec fn runnable(&self) -> bool {
        self.ty != JoinType::Cross && self.on is On
    }

    /// Executable form of [`Self::runnable`].
    pub fn is_runnable(&self) -> (r: bool)
        ensures
            r == self.runnable(),
    {
        let conditioned = match &self.on {
            JoinCondition::On { .. } => true,
            JoinCondition::Unconditioned => false,
        };
        conditioned && !matches!(self.ty, JoinType::Cross)
    }

    /// Runs the join; see [`Self::_execute`].
    pub fn execute(self) -> (r: Result<Vec<Tuple>, ExecutorError>)
        requires
            self.runnable(),
        ensures
            rows_result(r) == hash_join(
                self.params(),
                tuples_view(self.left_input@),
                tuples_view(self.right_input@),
            ),
    {
        self._execute()
    }

    /// Runs the join: builds from every row of the left input, probes with
    /// every row of the right input, and ends with the left rows that met
    /// no right row. The result is [`hash_join`] of the two inputs.
    pub fn _execute(self) -> (r: Result<Vec<Tuple>, ExecutorError>)
        requires
            self.runnable(),
        ensures
            rows_result(r) == hash_join(
                self.params(),
                tuples_view(self.left_input@),
                tuples_view(self.right_input@),
            ),
    {
        let ghost params = self.params();
        let ghost left = tuples_view(self.left_input@);
        let ghost right = tuples_view(self.right_input@);
        let HashJoin { on, ty, left_input, right_input } = self;
        let (pairs, filter) = match on {
            JoinCondition::On { on, filter } => (on, filter),
            JoinCondition::Unconditioned => (Vec::new(), None),
        };
        let (on_left_keys, on_right_keys) = unzip_keys(pairs);
        let mut state = HashJoinState::new(on_left_keys, on_right_keys, filter, ty);
        assert(state.params() == params);

        let mut i: usize = 0;
        assert(left.take(0) =~= Seq::empty());
        while i < left_input.len()
            invariant
                i <= left_input.len(),
                left == tuples_view(left_input@),
                params == self.params(),
                left == tuples_view(self.left_input@),
                right == tuples_view(self.right_input@),
                state.wf(),
                state.params() == params,
                !state@.probing,
                state@.left.len() == i,
                build_all(params, left.take(i as int)) == Ok::<JoinModel, ExecutorError>(state@),
            decreases left_input.len() - i,
        {
            proof {
                assert(left.take(i as int + 1).drop_last() =~= left.take(i as int));
                assert(left.take(i as int + 1).last() == left_input@[i as int]@);
            }
            match state.build(left_input[i].duplicate()) {
                Err(e) => {
                    proof {
                        lemma_build_all_error(params, left, i as int + 1);
                    }
                    return Err(e);
                },
                Ok(()) => {},
            }
            i = i + 1;
        }
        assert(left.take(left_input.len() as int) =~= left);
        let ghost built = state@;

        let mut out: Vec<Tuple> = Vec::new();
        let mut j: usize = 0;
        assert(right.take(0) =~= Seq::empty());
        assert(tuples_view(out@) =~= Seq::empty());
        while j < right_input.len()
            invariant
                j <= right_input.len(),
                right == tuples_view(right_input@),
                params == self.params(),
                left == tuples_view(self.left_input@),
                right == tuples_view(self.right_input@),
                state.wf(),
                state.params() == params,
                build_all(params, left) == Ok::<JoinModel, ExecutorError>(built),
                probe_all(params, built, right.take(j as int)) == Ok::<
                    (JoinModel, Seq<TupleModel>),
                    ExecutorError,
                >((state@, tuples_view(out@))),
            decreases right_input.len() - j,
        {
            proof {
                assert(right.take(j as int + 1).drop_last() =~= right.take(j as int));
                assert(right.take(j as int + 1).last() == right_input@[j as int]@);
            }
            match state.probe(right_input[j].duplicate()) {
                Err(e) => {
                    proof {
                        lemma_probe_all_error(params, built, right, j as int + 1);
                    }
                    return Err(e);
                },
                Ok(rows) => {
                    let ghost prev = tuples_view(out@);
                    let ghost more = tuples_view(rows@);
                    let mut rows = rows;
                    out.append(&mut rows);
                    assert(tuples_view(out@) =~= prev + more);
                },
            }
            j = j + 1;
        }
        assert(right.take(right_input.len() as int) =~= right);
        let ghost prev = tuples_view(out@);
        let mut tail = state.finish();
        let ghost tail_rows = tuples_view(tail@);
        out.append(&mut tail);
        assert(tuples_view(out@) =~= prev + tail_rows);
        Ok(out)
    }
}

} // verus!
