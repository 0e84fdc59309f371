//! The execution adapter: applies pushed-down filters, projection and
//! row limit to a stream of record batches, one batch per poll.
//!
//! Filter predicates are supplied by the query engine; the adapter only
//! assumes that each evaluation yields a boolean column as long as the
//! batch it was evaluated on, and aborts with a typed error otherwise.

use vstd::prelude::*;

use crate::batch::CellModel;
use crate::batch::ColumnData;
use crate::batch::RecordBatch;
use crate::batch::batch_cols;
use crate::batch::count_true;
use crate::batch::filter_seq;
use crate::batch::mask_keep;
use crate::batch::select_cols;
use crate::error::ConvertError;
use crate::error::ErrorKind;
use crate::schema::Schema;
use crate::schema::project_model;

verus! {

/// Is every mask acceptable in turn: boolean, and as long as the rows
/// left by the masks before it?
pub open spec fn masks_ok(nrows: int, masks: Seq<ColumnData>) -> bool
    decreases masks.len(),
{
    if masks.len() == 0 {
        true
    } else {
        &&& masks.first() is Boolean
        &&& masks.first()@.len() == nrows
        &&& masks_ok(count_true(mask_keep(masks.first()@)), masks.drop_first())
    }
}

/// The columns left after applying every mask in order.
pub open spec fn filtered_cols(cols: Seq<Seq<CellModel>>, masks: Seq<ColumnData>) -> Seq<
    Seq<CellModel>,
>
    decreases masks.len(),
{
    if masks.len() == 0 {
        cols
    } else {
        filtered_cols(
            cols.map_values(|col: Seq<CellModel>| filter_seq(col, mask_keep(masks.first()@))),
            masks.drop_first(),
        )
    }
}

/// The row count left after applying every mask in order.
pub open spec fn filtered_nrows(nrows: int, masks: Seq<ColumnData>) -> int
    decreases masks.len(),
{
    if masks.len() == 0 {
        nrows
    } else {
        filtered_nrows(count_true(mask_keep(masks.first()@)), masks.drop_first())
    }
}

/// Apply the pushed filters in order: each must be a boolean column as
/// long as the batch it applies to; rows where a mask is false or null
/// are dropped.
pub fn apply_filters(b: &RecordBatch, masks: &Vec<ColumnData>) -> (r: Result<
    RecordBatch,
    ConvertError,
>)
    requires
        b.wf(),
    ensures
        match r {
            Ok(f) => {
                &&& masks_ok(b.num_rows as int, masks@)
                &&& f.wf()
                &&& f.schema@ == b.schema@
                &&& f.num_rows == filtered_nrows(b.num_rows as int, masks@)
                &&& batch_cols(&f) == filtered_cols(batch_cols(b), masks@)
            },
            Err(e) => {
                &&& e.kind == ErrorKind::Schema
                &&& !masks_ok(b.num_rows as int, masks@)
            },
        },
{
    let mut cur: RecordBatch = b.clone();
    let n: usize = masks.len();
    proof {
        assert(masks@.subrange(0, n as int) =~= masks@);
        assert(batch_cols(&cur) =~= batch_cols(b));
    }
    for i in 0..n
        invariant
            n == masks@.len(),
            cur.wf(),
            cur.schema@ == b.schema@,
            filtered_cols(batch_cols(&cur), masks@.subrange(i as int, n as int)) == filtered_cols(
                batch_cols(b),
                masks@,
            ),
            filtered_nrows(cur.num_rows as int, masks@.subrange(i as int, n as int))
                == filtered_nrows(b.num_rows as int, masks@),
            masks_ok(cur.num_rows as int, masks@.subrange(i as int, n as int)) <==> masks_ok(
                b.num_rows as int,
                masks@,
            ),
    {
        let ghost suffix = masks@.subrange(i as int, n as int);
        proof {
            assert(suffix.first() == masks@[i as int]);
            assert(suffix.drop_first() =~= masks@.subrange(i as int + 1, n as int));
        }
        let filtered = match cur.filter(&masks[i]) {
            Ok(f) => f,
            Err(e) => {
                proof {
                    assert(!masks_ok(cur.num_rows as int, suffix));
                }
                return Err(
                    ConvertError::text(
                        ErrorKind::Schema,
                        "filter did not evaluate to a boolean column of the right length",
                    ),
                );
            },
        };
        proof {
            assert(batch_cols(&filtered) =~= batch_cols(&cur).map_values(
                |col: Seq<CellModel>| filter_seq(col, mask_keep(masks@[i as int]@)),
            ));
        }
        cur = filtered;
    }
    proof {
        assert(masks@.subrange(n as int, n as int) =~= Seq::<ColumnData>::empty());
        assert(filtered_cols(batch_cols(&cur), Seq::<ColumnData>::empty()) == batch_cols(&cur));
    }
    Ok(cur)
}

/// A mask that keeps exactly the first `k` positions.
pub open spec fn prefix_mask(n: int, k: int) -> Seq<bool> {
    Seq::new(n as nat, |i: int| i < k)
}

proof fn lemma_filter_prefix_mask<T>(s: Seq<T>, k: int)
    requires
        0 <= k <= s.len(),
    ensures
        filter_seq(s, prefix_mask(s.len() as int, k)) == s.take(k),
        count_true(prefix_mask(s.len() as int, k)) == k,
    decreases s.len(),
{
    let keep = prefix_mask(s.len() as int, k);
    if s.len() == 0 {
        assert(filter_seq(s, keep) =~= s.take(k));
    } else {
        if k < s.len() {
            assert(!keep.last());
            assert(keep.drop_last() =~= prefix_mask(s.len() - 1, k));
            lemma_filter_prefix_mask(s.drop_last(), k);
            assert(s.drop_last().take(k) =~= s.take(k));
            assert(filter_seq(s, keep) =~= filter_seq(s.drop_last(), keep.drop_last()));
        } else {
            assert(keep.last());
            assert(keep.drop_last() =~= prefix_mask(s.len() - 1, k - 1));
            lemma_filter_prefix_mask(s.drop_last(), k - 1);
            assert(s.drop_last().take(k - 1) =~= s.drop_last());
            assert(filter_seq(s, keep) =~= s.drop_last() + seq![s.last()]);
            assert(s.take(k) =~= s);
        }
    }
}

/// Keep only the first `k` rows of a batch.
pub fn truncate_batch(b: &RecordBatch, k: usize) -> (r: RecordBatch)
    requires
        b.wf(),
        k <= b.num_rows,
    ensures
        r.wf(),
        r.schema@ == b.schema@,
        r.num_rows == k,
        batch_cols(&r).len() == batch_cols(b).len(),
        forall|c: int|
            0 <= c < batch_cols(b).len() ==> #[trigger] batch_cols(&r)[c] == batch_cols(b)[c].take(
                k as int,
            ),
{
    let n: usize = b.num_rows;
    let mut flags: Vec<Option<bool>> = Vec::new();
    for i in 0..n
        invariant
            n == b.num_rows,
            k <= n,
            flags@.len() == i,
            forall|j: int| 0 <= j < i ==> #[trigger] flags@[j] == Some(j < k),
    {
        flags.push(Some(i < k));
    }
    let mask = ColumnData::Boolean(flags);
    proof {
        assert(mask_keep(mask@) =~= prefix_mask(n as int, k as int));
        assert(mask@.len() == n);
    }
    let out = match b.filter(&mask) {
        Ok(f) => f,
        Err(_) => {
            // The mask is boolean and has the batch's length, so the
            // filter cannot reject it.
            proof {
                assert(false);
            }
            b.clone()
        },
    };
    proof {
        assert forall|c: int| 0 <= c < batch_cols(b).len() implies #[trigger] batch_cols(
            &out,
        )[c] == batch_cols(b)[c].take(k as int) by {
            assert(batch_cols(b)[c].len() == b.num_rows);
            lemma_filter_prefix_mask(batch_cols(b)[c], k as int);
        }
        assert(count_true(mask_keep(mask@)) == k as int) by {
            assert(mask_keep(mask@) == prefix_mask(n as int, k as int));
            lemma_count_prefix_mask(n as int, k as int);
        }
    }
    out
}

proof fn lemma_count_prefix_mask(n: int, k: int)
    requires
        0 <= k <= n,
    ensures
        count_true(prefix_mask(n, k)) == k,
    decreases n,
{
    if n > 0 {
        if k < n {
            assert(prefix_mask(n, k).drop_last() =~= prefix_mask(n - 1, k));
            lemma_count_prefix_mask(n - 1, k);
        } else {
            assert(prefix_mask(n, k).drop_last() =~= prefix_mask(n - 1, k - 1));
            lemma_count_prefix_mask(n - 1, k - 1);
        }
    }
}

/// The pushdown state of one scan: cached schema, optional projection,
/// optional row limit, and the rows emitted so far.
#[derive(Debug)]
pub struct FormatStream {
    pub schema: Schema,
    pub projection: Option<Vec<usize>>,
    pub limit: Option<usize>,
    pub count: usize,
}

impl FormatStream {
    /// The stream invariant: the emitted row count never exceeds a
    /// configured limit.
    pub open spec fn wf(&self) -> bool {
        match self.limit {
            Some(l) => self.count <= l,
            None => true,
        }
    }

    /// A fresh stream with nothing emitted.
    pub fn new(schema: Schema, projection: Option<Vec<usize>>, limit: Option<usize>) -> (r:
        FormatStream)
        ensures
            r.wf(),
            r.schema@ == schema@,
            r.projection == projection,
            r.limit == limit,
            r.count == 0,
    {
        FormatStream { schema, projection, limit, count: 0 }
    }

    /// Process one source batch: apply the pushed filters in order,
    /// then the projection, then clip to the remaining row budget.
    ///
    /// Returns no batch exactly when the limit is already reached. The
    /// emitted rows are the projection of the filtered rows, cut to the
    /// budget, and the running count never exceeds the limit.
    pub fn process_batch(&mut self, batch: &RecordBatch, masks: &Vec<ColumnData>) -> (r: Result<
        Option<RecordBatch>,
        ConvertError,
    >)
        requires
            old(self).wf(),
            batch.wf(),
        ensures
            final (self).schema@ == old(self).schema@,
            final (self).projection == old(self).projection,
            final (self).limit == old(self).limit,
            final (self).wf(),
            match r {
                Ok(out_opt) => match out_opt {
                    Some(out) => {
                        &&& !(old(self).limit matches Some(l) && old(self).count >= l)
                        &&& masks_ok(batch.num_rows as int, masks@)
                        &&& out.wf()
                        &&& {
                            let filtered = filtered_cols(batch_cols(batch), masks@);
                            let full = filtered_nrows(batch.num_rows as int, masks@);
                            let emitted: int = match old(self).limit {
                                Some(l) => if full <= l - old(self).count {
                                    full
                                } else {
                                    l - old(self).count
                                },
                                None => full,
                            };
                            &&& out.num_rows == emitted
                            &&& final (self).count == match old(self).limit {
                                Some(_) => old(self).count + emitted,
                                None => old(self).count as int,
                            }
                            &&& match old(self).projection {
                                Some(p) => {
                                    &&& forall|i: int|
                                        0 <= i < p@.len() ==> (#[trigger] p@[i])
                                            < batch.schema@.len()
                                    &&& out.schema@ == project_model(
                                        batch.schema@,
                                        p@.map_values(|u: usize| u as int),
                                    )
                                    &&& batch_cols(&out).len() == p@.len()
                                    &&& forall|c: int|
                                        0 <= c < p@.len() ==> #[trigger] batch_cols(&out)[c]
                                            == filtered[p@[c] as int].take(emitted)
                                },
                                None => {
                                    &&& out.schema@ == batch.schema@
                                    &&& batch_cols(&out).len() == batch.schema@.len()
                                    &&& forall|c: int|
                                        0 <= c < batch.schema@.len() ==> #[trigger] batch_cols(
                                            &out,
                                        )[c] == filtered[c].take(emitted)
                                },
                            }
                        }
                    },
                    None => {
                        &&& old(self).limit matches Some(l) && old(self).count >= l
                        &&& *final (self) == *old(self)
                    },
                },
                Err(e) => {
                    &&& *final (self) == *old(self)
                    &&& (e.kind == ErrorKind::Schema || e.kind == ErrorKind::Internal)
                    &&& (e.kind == ErrorKind::Schema ==> !masks_ok(batch.num_rows as int, masks@))
                    &&& (e.kind == ErrorKind::Internal ==> (old(self).projection matches Some(p)
                        && exists|i: int|
                        0 <= i < p@.len() && (#[trigger] p@[i]) >= batch.schema@.len()))
                },
            },
    {
        if let Some(l) = self.limit {
            if self.count >= l {
                return Ok(None);
            }
        }
        let filtered = match apply_filters(batch, masks) {
            Ok(f) => f,
            Err(e) => {
                return Err(e);
            },
        };
        let projected = match &self.projection {
            Some(p) => match filtered.project(p) {
                Ok(pb) => pb,
                Err(e) => {
                    return Err(e);
                },
            },
            None => filtered,
        };
        let emitted: usize = match self.limit {
            Some(l) => {
                let remaining = l - self.count;
                if projected.num_rows <= remaining {
                    projected.num_rows
                } else {
                    remaining
                }
            },
            None => projected.num_rows,
        };
        let out = if emitted < projected.num_rows {
            truncate_batch(&projected, emitted)
        } else {
            proof {
                assert forall|c: int| 0 <= c < batch_cols(&projected).len()
                    implies #[trigger] batch_cols(&projected)[c] == batch_cols(&projected)[c].take(
                    emitted as int,
                ) by {
                    assert(batch_cols(&projected)[c].len() == emitted);
                    assert(batch_cols(&projected)[c].take(emitted as int) =~= batch_cols(
                        &projected,
                    )[c]);
                }
            }
            projected
        };
        if self.limit.is_some() {
            self.count = self.count + emitted;
        }
        proof {
            match old(self).projection {
                Some(p) => {
                    let filteredv = filtered_cols(batch_cols(batch), masks@);
                    assert forall|c: int| 0 <= c < p@.len() implies #[trigger] batch_cols(
                        &out,
                    )[c] == filteredv[p@[c] as int].take(emitted as int) by {
                        assert(batch_cols(&out)[c] == select_cols(
                            filteredv,
                            p@.map_values(|u: usize| u as int),
                        )[c].take(emitted as int));
                    }
                },
                None => {
                },
            }
        }
        Ok(Some(out))
    }
}

/// A single-partition execution plan holding the pushdowns.
#[derive(Debug)]
pub struct FormatExecPlan {
    pub schema: Schema,
    pub projection: Option<Vec<usize>>,
    pub limit: Option<usize>,
}

impl FormatExecPlan {
    /// Build a plan from the pushdowns.
    pub fn new(schema: Schema, projection: Option<Vec<usize>>, limit: Option<usize>) -> (r:
        FormatExecPlan)
        ensures
            r.schema@ == schema@,
            r.projection == projection,
            r.limit == limit,
    {
        FormatExecPlan { schema, projection, limit }
    }

    /// Start executing the plan. The plan is single-partition: any
    /// partition other than zero is rejected with an internal error.
    pub fn execute(&self, partition: usize) -> (r: Result<FormatStream, ConvertError>)
        ensures
            match r {
                Ok(s) => {
                    &&& partition == 0
                    &&& s.wf()
                    &&& s.schema@ == self.schema@
                    &&& (s.projection is Some <==> self.projection is Some)
                    &&& (s.projection matches Some(cp) ==> cp@ == self.projection->0@)
                    &&& s.limit == self.limit
                    &&& s.count == 0
                },
                Err(e) => partition != 0 && e.kind == ErrorKind::Internal,
            },
    {
        if partition != 0 {
            return Err(ConvertError::text(ErrorKind::Internal, "invalid partition"));
        }
        let projection = match &self.projection {
            Some(p) => {
                let mut copy: Vec<usize> = Vec::new();
                let n: usize = p.len();
                for i in 0..n
                    invariant
                        n == p@.len(),
                        copy@.len() == i,
                        forall|j: int| 0 <= j < i ==> #[trigger] copy@[j] == p@[j],
                {
                    copy.push(p[i]);
                }
                proof {
                    assert(copy@ =~= p@);
                }
                Some(copy)
            },
            None => None,
        };
        Ok(FormatStream::new(self.schema.clone(), projection, self.limit))
    }
}

/// With no row limit, a scan emits exactly the projection of the
/// filtered source rows: the filter pushdown changes no row content.
pub proof fn lemma_filter_pushdown_equivalence(
    cols: Seq<Seq<CellModel>>,
    nrows: int,
    masks: Seq<ColumnData>,
    p: Seq<int>,
)
    requires
        masks_ok(nrows, masks),
        forall|c: int| 0 <= c < cols.len() ==> (#[trigger] cols[c]).len() == nrows,
        forall|i: int| 0 <= i < p.len() ==> 0 <= #[trigger] p[i] < cols.len(),
    ensures
        forall|c: int|
            0 <= c < p.len() ==> (#[trigger] select_cols(filtered_cols(cols, masks), p)[c])
                == filtered_cols(cols, masks)[p[c]],
        forall|c: int|
            0 <= c < cols.len() ==> (#[trigger] filtered_cols(cols, masks)[c]).len()
                == filtered_nrows(nrows, masks),
    decreases masks.len(),
{
    if masks.len() == 0 {
        assert(filtered_cols(cols, masks) == cols);
    } else {
        let stage = cols.map_values(
            |col: Seq<CellModel>| filter_seq(col, mask_keep(masks.first()@)),
        );
        assert forall|c: int| 0 <= c < stage.len() implies (#[trigger] stage[c]).len()
            == count_true(mask_keep(masks.first()@)) by {
            crate::batch::lemma_filter_len(cols[c], mask_keep(masks.first()@));
        }
        lemma_filter_pushdown_equivalence(
            stage,
            count_true(mask_keep(masks.first()@)),
            masks.drop_first(),
            p,
        );
        assert(filtered_cols(cols, masks) == filtered_cols(stage, masks.drop_first()));
        assert(filtered_nrows(nrows, masks) == filtered_nrows(
            count_true(mask_keep(masks.first()@)),
            masks.drop_first(),
        ));
    }
}

} // verus!
