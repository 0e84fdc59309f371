//! Record batches: immutable tuples of (schema, row count, typed columns)
//! with the two derived operations, projection and filtering.
//!
//! Columns are modelled as sequences of cells; a cell is null or a typed
//! value. Batches are value types: every operation builds a new batch.

use vstd::prelude::*;

use crate::bytesutil::clone_bytes;
use crate::error::ConvertError;
use crate::error::ErrorKind;
use crate::schema::DataType;
use crate::schema::FieldModel;
use crate::schema::Schema;
use crate::schema::project_model;

verus! {

/// The mathematical value of one cell of a column.
pub enum CellModel {
    Null,
    IntCell(int),
    FloatCell(Seq<u8>),
    StrCell(Seq<u8>),
    BoolCell(bool),
    TsCell(int),
}

/// One typed column; the option marks null positions.
#[derive(Debug)]
pub enum ColumnData {
    Int64(Vec<Option<i64>>),
    Float64(Vec<Option<Vec<u8>>>),
    Utf8(Vec<Option<Vec<u8>>>),
    Boolean(Vec<Option<bool>>),
    Timestamp(Vec<Option<i64>>),
}

pub open spec fn int_cells(v: Seq<Option<i64>>) -> Seq<CellModel> {
    v.map_values(
        |o: Option<i64>|
            match o {
                Option::Some(x) => CellModel::IntCell(x as int),
                Option::None => CellModel::Null,
            },
    )
}

pub open spec fn float_cells(v: Seq<Option<Vec<u8>>>) -> Seq<CellModel> {
    v.map_values(
        |o: Option<Vec<u8>>|
            match o {
                Option::Some(x) => CellModel::FloatCell(x@),
                Option::None => CellModel::Null,
            },
    )
}

pub open spec fn str_cells(v: Seq<Option<Vec<u8>>>) -> Seq<CellModel> {
    v.map_values(
        |o: Option<Vec<u8>>|
            match o {
                Option::Some(x) => CellModel::StrCell(x@),
                Option::None => CellModel::Null,
            },
    )
}

pub open spec fn bool_cells(v: Seq<Option<bool>>) -> Seq<CellModel> {
    v.map_values(
        |o: Option<bool>|
            match o {
                Option::Some(x) => CellModel::BoolCell(x),
                Option::None => CellModel::Null,
            },
    )
}

pub open spec fn ts_cells(v: Seq<Option<i64>>) -> Seq<CellModel> {
    v.map_values(
        |o: Option<i64>|
            match o {
                Option::Some(x) => CellModel::TsCell(x as int),
                Option::None => CellModel::Null,
            },
    )
}

impl View for ColumnData {
    type V = Seq<CellModel>;

    open spec fn view(&self) -> Seq<CellModel> {
        match self {
            ColumnData::Int64(v) => int_cells(v@),
            ColumnData::Float64(v) => float_cells(v@),
            ColumnData::Utf8(v) => str_cells(v@),
            ColumnData::Boolean(v) => bool_cells(v@),
            ColumnData::Timestamp(v) => ts_cells(v@),
        }
    }
}

/// Does a cell carry a value of the given logical type (or null)?
pub open spec fn cell_conforms(c: CellModel, dt: DataType) -> bool {
    match c {
        CellModel::Null => true,
        CellModel::IntCell(v) => dt == DataType::Int64 && i64::MIN <= v <= i64::MAX,
        CellModel::FloatCell(_) => dt == DataType::Float64,
        CellModel::StrCell(_) => dt == DataType::Utf8,
        CellModel::BoolCell(_) => dt == DataType::Boolean,
        CellModel::TsCell(v) => dt == DataType::Timestamp && i64::MIN <= v <= i64::MAX,
    }
}

/// The logical type a column's representation carries.
pub open spec fn col_type(c: ColumnData) -> DataType {
    match c {
        ColumnData::Int64(_) => DataType::Int64,
        ColumnData::Float64(_) => DataType::Float64,
        ColumnData::Utf8(_) => DataType::Utf8,
        ColumnData::Boolean(_) => DataType::Boolean,
        ColumnData::Timestamp(_) => DataType::Timestamp,
    }
}

impl ColumnData {
    /// Number of cells.
    pub fn len(&self) -> (r: usize)
        ensures
            r == self@.len(),
    {
        match self {
            ColumnData::Int64(v) => v.len(),
            ColumnData::Float64(v) => v.len(),
            ColumnData::Utf8(v) => v.len(),
            ColumnData::Boolean(v) => v.len(),
            ColumnData::Timestamp(v) => v.len(),
        }
    }

    /// The logical type of this column's representation.
    pub fn data_type(&self) -> (r: DataType)
        ensures
            r == col_type(*self),
    {
        match self {
            ColumnData::Int64(_) => DataType::Int64,
            ColumnData::Float64(_) => DataType::Float64,
            ColumnData::Utf8(_) => DataType::Utf8,
            ColumnData::Boolean(_) => DataType::Boolean,
            ColumnData::Timestamp(_) => DataType::Timestamp,
        }
    }
}

/// The rows kept by a boolean mask column: true keeps, false and null
/// drop.
pub open spec fn mask_keep(cells: Seq<CellModel>) -> Seq<bool> {
    cells.map_values(|c: CellModel| c == CellModel::BoolCell(true))
}

/// Filter a sequence by a keep flag per position.
pub open spec fn filter_seq<T>(s: Seq<T>, keep: Seq<bool>) -> Seq<T>
    recommends
        s.len() == keep.len(),
    decreases s.len(),
{
    if s.len() == 0 {
        Seq::empty()
    } else if keep.len() == 0 {
        Seq::empty()
    } else {
        filter_seq(s.drop_last(), keep.drop_last()) + if keep.last() {
            seq![s.last()]
        } else {
            Seq::empty()
        }
    }
}

/// How many flags are set.
pub open spec fn count_true(keep: Seq<bool>) -> int
    decreases keep.len(),
{
    if keep.len() == 0 {
        0
    } else {
        count_true(keep.drop_last()) + if keep.last() {
            1int
        } else {
            0int
        }
    }
}

/// A filtered sequence has one element per set flag.
pub proof fn lemma_filter_len<T>(s: Seq<T>, keep: Seq<bool>)
    requires
        s.len() == keep.len(),
    ensures
        filter_seq(s, keep).len() == count_true(keep),
        count_true(keep) >= 0,
    decreases s.len(),
{
    if s.len() > 0 {
        lemma_filter_len(s.drop_last(), keep.drop_last());
    }
}

/// Filtering commutes with a pointwise map.
pub proof fn lemma_filter_map_commute<A, B>(s: Seq<A>, keep: Seq<bool>, f: spec_fn(A) -> B)
    requires
        s.len() == keep.len(),
    ensures
        filter_seq(s.map_values(f), keep) == filter_seq(s, keep).map_values(f),
    decreases s.len(),
{
    if s.len() > 0 {
        lemma_filter_map_commute(s.drop_last(), keep.drop_last(), f);
        assert(s.map_values(f).drop_last() =~= s.drop_last().map_values(f));
        if keep.last() {
            assert(filter_seq(s.map_values(f), keep) =~= filter_seq(s.drop_last(), keep.drop_last())
                .map_values(f) + seq![f(s.last())]);
            assert(filter_seq(s, keep).map_values(f) =~= filter_seq(
                s.drop_last(),
                keep.drop_last(),
            ).map_values(f) + seq![f(s.last())]);
        } else {
            assert(filter_seq(s.map_values(f), keep) =~= filter_seq(s, keep).map_values(f));
        }
    } else {
        assert(filter_seq(s.map_values(f), keep) =~= filter_seq(s, keep).map_values(f));
    }
}

/// Appending one element and one flag extends a filtered sequence.
proof fn lemma_filter_push<T>(s: Seq<T>, keep: Seq<bool>, x: T, k: bool)
    ensures
        filter_seq(s.push(x), keep.push(k)) == filter_seq(s, keep) + if k {
            seq![x]
        } else {
            Seq::<T>::empty()
        },
{
    assert(s.push(x).drop_last() =~= s);
    assert(keep.push(k).drop_last() =~= keep);
}

/// Extract the keep flags of a boolean mask column; none when the mask
/// is not boolean.
pub fn mask_of_column(mask: &ColumnData) -> (r: Option<Vec<bool>>)
    ensures
        r is Some <==> mask is Boolean,
        r matches Some(keep) ==> keep@ == mask_keep(mask@),
{
    match mask {
        ColumnData::Boolean(v) => {
            let n: usize = v.len();
            let mut keep: Vec<bool> = Vec::new();
            for i in 0..n
                invariant
                    n == v@.len(),
                    keep@.len() == i,
                    forall|j: int| 0 <= j < i ==> keep@[j] == (v@[j] == Some(true)),
            {
                let k: bool = match v[i] {
                    Some(b) => b,
                    None => false,
                };
                keep.push(k);
            }
            proof {
                assert(keep@ =~= mask_keep(bool_cells(v@)));
            }
            Some(keep)
        },
        _ => None,
    }
}

fn filter_opt_i64(v: &Vec<Option<i64>>, keep: &Vec<bool>) -> (r: Vec<Option<i64>>)
    requires
        v@.len() == keep@.len(),
    ensures
        r@ == filter_seq(v@, keep@),
{
    let n: usize = v.len();
    let mut out: Vec<Option<i64>> = Vec::new();
    for i in 0..n
        invariant
            n == v@.len(),
            n == keep@.len(),
            out@ == filter_seq(v@.take(i as int), keep@.take(i as int)),
    {
        proof {
            assert(v@.take(i as int + 1) =~= v@.take(i as int).push(v@[i as int]));
            assert(keep@.take(i as int + 1) =~= keep@.take(i as int).push(keep@[i as int]));
            lemma_filter_push(v@.take(i as int), keep@.take(i as int), v@[i as int], keep@[i as int]);
        }
        if keep[i] {
            out.push(v[i]);
        }
        proof {
            if keep@[i as int] {
                assert(out@ =~= filter_seq(v@.take(i as int), keep@.take(i as int)) + seq![v@[i as int]]);
            } else {
                assert(out@ =~= filter_seq(v@.take(i as int), keep@.take(i as int)));
            }
        }
    }
    proof {
        assert(v@.take(n as int) =~= v@);
        assert(keep@.take(n as int) =~= keep@);
    }
    out
}

fn filter_opt_bool(v: &Vec<Option<bool>>, keep: &Vec<bool>) -> (r: Vec<Option<bool>>)
    requires
        v@.len() == keep@.len(),
    ensures
        r@ == filter_seq(v@, keep@),
{
    let n: usize = v.len();
    let mut out: Vec<Option<bool>> = Vec::new();
    for i in 0..n
        invariant
            n == v@.len(),
            n == keep@.len(),
            out@ == filter_seq(v@.take(i as int), keep@.take(i as int)),
    {
        proof {
            assert(v@.take(i as int + 1) =~= v@.take(i as int).push(v@[i as int]));
            assert(keep@.take(i as int + 1) =~= keep@.take(i as int).push(keep@[i as int]));
            lemma_filter_push(v@.take(i as int), keep@.take(i as int), v@[i as int], keep@[i as int]);
        }
        if keep[i] {
            out.push(v[i]);
        }
        proof {
            if keep@[i as int] {
                assert(out@ =~= filter_seq(v@.take(i as int), keep@.take(i as int)) + seq![v@[i as int]]);
            } else {
                assert(out@ =~= filter_seq(v@.take(i as int), keep@.take(i as int)));
            }
        }
    }
    proof {
        assert(v@.take(n as int) =~= v@);
        assert(keep@.take(n as int) =~= keep@);
    }
    out
}

fn clone_opt_bytes(o: &Option<Vec<u8>>) -> (r: Option<Vec<u8>>)
    ensures
        r is Some <==> o is Some,
        r matches Some(b) ==> b@ == o->0@,
{
    match o {
        Some(b) => Some(clone_bytes(b)),
        None => None,
    }
}

fn filter_opt_bytes(v: &Vec<Option<Vec<u8>>>, keep: &Vec<bool>) -> (r: Vec<Option<Vec<u8>>>)
    requires
        v@.len() == keep@.len(),
    ensures
        str_cells(r@) == filter_seq(str_cells(v@), keep@),
        float_cells(r@) == filter_seq(float_cells(v@), keep@),
{
    let n: usize = v.len();
    let mut out: Vec<Option<Vec<u8>>> = Vec::new();
    for i in 0..n
        invariant
            n == v@.len(),
            n == keep@.len(),
            str_cells(out@) == filter_seq(str_cells(v@.take(i as int)), keep@.take(i as int)),
            float_cells(out@) == filter_seq(float_cells(v@.take(i as int)), keep@.take(i as int)),
    {
        let ghost pre = out@;
        proof {
            assert(str_cells(v@.take(i as int + 1)) =~= str_cells(v@.take(i as int)).push(
                str_cells(v@)[i as int],
            ));
            assert(float_cells(v@.take(i as int + 1)) =~= float_cells(v@.take(i as int)).push(
                float_cells(v@)[i as int],
            ));
            assert(keep@.take(i as int + 1) =~= keep@.take(i as int).push(keep@[i as int]));
            lemma_filter_push(
                str_cells(v@.take(i as int)),
                keep@.take(i as int),
                str_cells(v@)[i as int],
                keep@[i as int],
            );
            lemma_filter_push(
                float_cells(v@.take(i as int)),
                keep@.take(i as int),
                float_cells(v@)[i as int],
                keep@[i as int],
            );
        }
        if keep[i] {
            let copied = clone_opt_bytes(&v[i]);
            out.push(copied);
            proof {
                assert(str_cells(out@) =~= str_cells(pre).push(str_cells(v@)[i as int]));
                assert(float_cells(out@) =~= float_cells(pre).push(float_cells(v@)[i as int]));
            }
        }
    }
    proof {
        assert(v@.take(n as int) =~= v@);
        assert(keep@.take(n as int) =~= keep@);
    }
    out
}

/// Filter one column by keep flags.
pub fn filter_column(col: &ColumnData, keep: &Vec<bool>) -> (r: ColumnData)
    requires
        col@.len() == keep@.len(),
    ensures
        r@ == filter_seq(col@, keep@),
        col_type(r) == col_type(*col),
{
    match col {
        ColumnData::Int64(v) => {
            let f = filter_opt_i64(v, keep);
            proof {
                lemma_filter_map_commute(
                    v@,
                    keep@,
                    |o: Option<i64>|
                        match o {
                            Option::Some(x) => CellModel::IntCell(x as int),
                            Option::None => CellModel::Null,
                        },
                );
            }
            ColumnData::Int64(f)
        },
        ColumnData::Timestamp(v) => {
            let f = filter_opt_i64(v, keep);
            proof {
                lemma_filter_map_commute(
                    v@,
                    keep@,
                    |o: Option<i64>|
                        match o {
                            Option::Some(x) => CellModel::TsCell(x as int),
                            Option::None => CellModel::Null,
                        },
                );
            }
            ColumnData::Timestamp(f)
        },
        ColumnData::Boolean(v) => {
            let f = filter_opt_bool(v, keep);
            proof {
                lemma_filter_map_commute(
                    v@,
                    keep@,
                    |o: Option<bool>|
                        match o {
                            Option::Some(x) => CellModel::BoolCell(x),
                            Option::None => CellModel::Null,
                        },
                );
            }
            ColumnData::Boolean(f)
        },
        ColumnData::Utf8(v) => ColumnData::Utf8(filter_opt_bytes(v, keep)),
        ColumnData::Float64(v) => ColumnData::Float64(filter_opt_bytes(v, keep)),
    }
}

fn clone_opt_i64_vec(v: &Vec<Option<i64>>) -> (r: Vec<Option<i64>>)
    ensures
        r@ == v@,
{
    let n: usize = v.len();
    let mut out: Vec<Option<i64>> = Vec::new();
    for i in 0..n
        invariant
            n == v@.len(),
            out@ == v@.take(i as int),
    {
        out.push(v[i]);
        proof {
            assert(out@ =~= v@.take(i as int + 1));
        }
    }
    proof {
        assert(v@.take(n as int) =~= v@);
    }
    out
}

fn clone_opt_bool_vec(v: &Vec<Option<bool>>) -> (r: Vec<Option<bool>>)
    ensures
        r@ == v@,
{
    let n: usize = v.len();
    let mut out: Vec<Option<bool>> = Vec::new();
    for i in 0..n
        invariant
            n == v@.len(),
            out@ == v@.take(i as int),
    {
        out.push(v[i]);
        proof {
            assert(out@ =~= v@.take(i as int + 1));
        }
    }
    proof {
        assert(v@.take(n as int) =~= v@);
    }
    out
}

fn clone_opt_bytes_vec(v: &Vec<Option<Vec<u8>>>) -> (r: Vec<Option<Vec<u8>>>)
    ensures
        str_cells(r@) == str_cells(v@),
        float_cells(r@) == float_cells(v@),
{
    let n: usize = v.len();
    let mut out: Vec<Option<Vec<u8>>> = Vec::new();
    for i in 0..n
        invariant
            n == v@.len(),
            out@.len() == i,
            str_cells(out@) == str_cells(v@).take(i as int),
            float_cells(out@) == float_cells(v@).take(i as int),
    {
        let copied = clone_opt_bytes(&v[i]);
        out.push(copied);
        proof {
            assert(str_cells(out@) =~= str_cells(v@).take(i as int + 1));
            assert(float_cells(out@) =~= float_cells(v@).take(i as int + 1));
        }
    }
    proof {
        assert(str_cells(v@).take(n as int) =~= str_cells(v@));
        assert(float_cells(v@).take(n as int) =~= float_cells(v@));
    }
    out
}

/// Copy one column; the copy has the same cells and representation type.
pub fn clone_column(col: &ColumnData) -> (r: ColumnData)
    ensures
        r@ == col@,
        col_type(r) == col_type(*col),
{
    match col {
        ColumnData::Int64(v) => ColumnData::Int64(clone_opt_i64_vec(v)),
        ColumnData::Timestamp(v) => ColumnData::Timestamp(clone_opt_i64_vec(v)),
        ColumnData::Boolean(v) => ColumnData::Boolean(clone_opt_bool_vec(v)),
        ColumnData::Utf8(v) => ColumnData::Utf8(clone_opt_bytes_vec(v)),
        ColumnData::Float64(v) => ColumnData::Float64(clone_opt_bytes_vec(v)),
    }
}

/// The projection of a sequence of columns by index.
pub open spec fn select_cols(cols: Seq<Seq<CellModel>>, idx: Seq<int>) -> Seq<Seq<CellModel>> {
    idx.map_values(|i: int| cols[i])
}

/// An immutable record batch: schema, row count, one column per field.
#[derive(Debug)]
pub struct RecordBatch {
    pub schema: Schema,
    pub num_rows: usize,
    pub columns: Vec<ColumnData>,
}

impl Clone for ColumnData {
    fn clone(&self) -> (r: ColumnData)
        ensures
            r@ == self@,
            col_type(r) == col_type(*self),
    {
        clone_column(self)
    }
}

/// The cell model of every column of a batch.
pub open spec fn batch_cols(b: &RecordBatch) -> Seq<Seq<CellModel>> {
    b.columns@.map_values(|c: ColumnData| c@)
}

impl Clone for RecordBatch {
    fn clone(&self) -> (r: RecordBatch)
        ensures
            r.schema@ == self.schema@,
            r.num_rows == self.num_rows,
            batch_cols(&r) == batch_cols(self),
            self.wf() ==> r.wf(),
    {
        let n: usize = self.columns.len();
        let mut cols: Vec<ColumnData> = Vec::new();
        for i in 0..n
            invariant
                n == self.columns@.len(),
                cols@.len() == i,
                forall|j: int| 0 <= j < i ==> (#[trigger] cols@[j])@ == self.columns@[j]@,
                forall|j: int|
                    0 <= j < i ==> col_type(#[trigger] cols@[j]) == col_type(self.columns@[j]),
        {
            cols.push(clone_column(&self.columns[i]));
        }
        let r = RecordBatch { schema: self.schema.clone(), num_rows: self.num_rows, columns: cols };
        proof {
            assert(batch_cols(&r) =~= batch_cols(self));
        }
        r
    }
}

impl RecordBatch {
    /// Well-formedness: one column per field, every column as long as the
    /// row count, and every column's representation matching its field
    /// type.
    pub open spec fn wf(&self) -> bool {
        &&& self.columns@.len() == self.schema@.len()
        &&& forall|c: int|
            0 <= c < self.columns@.len() ==> (#[trigger] self.columns@[c])@.len()
                == self.num_rows
        &&& forall|c: int|
            0 <= c < self.columns@.len() ==> col_type(#[trigger] self.columns@[c])
                == self.schema@[c].data_type
    }

    /// Assemble a batch, validating shape and types.
    ///
    /// Fails with a schema error exactly when the column count differs
    /// from the field count, a column's length differs from the row
    /// count, or a column's type differs from its field's type.
    pub fn new(schema: Schema, num_rows: usize, columns: Vec<ColumnData>) -> (r: Result<
        RecordBatch,
        ConvertError,
    >)
        ensures
            match r {
                Ok(b) => {
                    &&& b.wf()
                    &&& b.schema@ == schema@
                    &&& b.num_rows == num_rows
                    &&& batch_cols(&b) == columns@.map_values(|c: ColumnData| c@)
                },
                Err(e) => {
                    &&& e.kind == ErrorKind::Schema
                    &&& !(RecordBatch { schema, num_rows, columns }).wf()
                },
            },
    {
        if columns.len() != schema.len() {
            return Err(
                ConvertError::text(ErrorKind::Schema, "column count differs from schema"),
            );
        }
        let n: usize = columns.len();
        for c in 0..n
            invariant
                n == columns@.len(),
                n == schema@.len(),
                forall|j: int| 0 <= j < c ==> (#[trigger] columns@[j])@.len() == num_rows,
                forall|j: int|
                    0 <= j < c ==> col_type(#[trigger] columns@[j]) == schema@[j].data_type,
        {
            if columns[c].len() != num_rows {
                return Err(
                    ConvertError::text(ErrorKind::Schema, "column length differs from row count"),
                );
            }
            if columns[c].data_type() != schema.fields[c].data_type {
                return Err(
                    ConvertError::text(ErrorKind::Schema, "column type differs from schema"),
                );
            }
        }
        Ok(RecordBatch { schema, num_rows, columns })
    }

    /// Project a batch: same row count, columns reordered or taken per
    /// `indices`, schema projected the same way. Fails exactly when an
    /// index is out of range.
    pub fn project(&self, indices: &Vec<usize>) -> (r: Result<RecordBatch, ConvertError>)
        requires
            self.wf(),
        ensures
            match r {
                Ok(p) => {
                    &&& forall|i: int|
                        0 <= i < indices@.len() ==> (#[trigger] indices@[i]) < self.schema@.len()
                    &&& p.wf()
                    &&& p.num_rows == self.num_rows
                    &&& p.schema@ == project_model(
                        self.schema@,
                        indices@.map_values(|u: usize| u as int),
                    )
                    &&& batch_cols(&p) == select_cols(
                        batch_cols(self),
                        indices@.map_values(|u: usize| u as int),
                    )
                },
                Err(e) => {
                    &&& e.kind == ErrorKind::Internal
                    &&& exists|i: int|
                        0 <= i < indices@.len() && (#[trigger] indices@[i]) >= self.schema@.len()
                },
            },
    {
        let projected_schema = match self.schema.project(indices) {
            Ok(s) => s,
            Err(_) => {
                return Err(ConvertError::text(ErrorKind::Internal, "projection index out of range"));
            },
        };
        let n: usize = indices.len();
        let mut cols: Vec<ColumnData> = Vec::new();
        for i in 0..n
            invariant
                n == indices@.len(),
                self.wf(),
                forall|j: int| 0 <= j < n ==> (#[trigger] indices@[j]) < self.schema@.len(),
                cols@.len() == i,
                forall|j: int|
                    0 <= j < i ==> (#[trigger] cols@[j])@ == self.columns@[indices@[j] as int]@,
                forall|j: int|
                    0 <= j < i ==> col_type(#[trigger] cols@[j]) == col_type(
                        self.columns@[indices@[j] as int],
                    ),
        {
            let ix = indices[i];
            let copied = clone_column(&self.columns[ix]);
            cols.push(copied);
        }
        let out = RecordBatch { schema: projected_schema, num_rows: self.num_rows, columns: cols };
        proof {
            let idx = indices@.map_values(|u: usize| u as int);
            assert(batch_cols(&out) =~= select_cols(batch_cols(self), idx));
            assert forall|c: int| 0 <= c < out.columns@.len() implies col_type(
                #[trigger] out.columns@[c],
            ) == out.schema@[c].data_type by {
                assert(out.schema@[c] == self.schema@[indices@[c] as int]);
            }
        }
        Ok(out)
    }

    /// Filter a batch by a boolean mask column of the same length: rows
    /// where the mask is true are kept; nulls in the mask drop the row.
    /// Fails exactly when the mask is not boolean or has the wrong
    /// length.
    pub fn filter(&self, mask: &ColumnData) -> (r: Result<RecordBatch, ConvertError>)
        requires
            self.wf(),
        ensures
            match r {
                Ok(f) => {
                    &&& mask is Boolean
                    &&& mask@.len() == self.num_rows
                    &&& f.wf()
                    &&& f.schema@ == self.schema@
                    &&& f.num_rows == count_true(mask_keep(mask@))
                    &&& batch_cols(&f).len() == batch_cols(self).len()
                    &&& forall|c: int|
                        0 <= c < batch_cols(self).len() ==> #[trigger] batch_cols(&f)[c]
                            == filter_seq(batch_cols(self)[c], mask_keep(mask@))
                },
                Err(e) => {
                    &&& e.kind == ErrorKind::Schema
                    &&& !(mask is Boolean && mask@.len() == self.num_rows)
                },
            },
    {
        let keep = match mask_of_column(mask) {
            Some(k) => k,
            None => {
                return Err(ConvertError::text(ErrorKind::Schema, "filter mask is not boolean"));
            },
        };
        if keep.len() != self.num_rows {
            return Err(ConvertError::text(ErrorKind::Schema, "filter mask has wrong length"));
        }
        let mut kept: usize = 0;
        let n: usize = keep.len();
        for i in 0..n
            invariant
                n == keep@.len(),
                kept == count_true(keep@.take(i as int)),
                kept <= i,
        {
            proof {
                assert(keep@.take(i as int + 1).drop_last() =~= keep@.take(i as int));
            }
            if keep[i] {
                kept = kept + 1;
            }
        }
        proof {
            assert(keep@.take(n as int) =~= keep@);
        }
        let ncols: usize = self.columns.len();
        let mut cols: Vec<ColumnData> = Vec::new();
        for c in 0..ncols
            invariant
                ncols == self.columns@.len(),
                self.wf(),
                keep@.len() == self.num_rows,
                keep@ == mask_keep(mask@),
                cols@.len() == c,
                forall|j: int|
                    0 <= j < c ==> (#[trigger] cols@[j])@ == filter_seq(
                        self.columns@[j]@,
                        keep@,
                    ),
                forall|j: int|
                    0 <= j < c ==> col_type(#[trigger] cols@[j]) == col_type(self.columns@[j]),
        {
            let filtered = filter_column(&self.columns[c], &keep);
            cols.push(filtered);
        }
        let out = RecordBatch {
            schema: self.schema.clone(),
            num_rows: kept,
            columns: cols,
        };
        proof {
            assert(out.schema@ == self.schema@);
            assert forall|c: int| 0 <= c < out.columns@.len() implies (
            #[trigger] out.columns@[c])@.len() == out.num_rows by {
                lemma_filter_len(self.columns@[c]@, keep@);
            }
            assert(batch_cols(&out).len() == batch_cols(self).len());
            assert forall|c: int| 0 <= c < batch_cols(self).len() implies #[trigger] batch_cols(
                &out,
            )[c] == filter_seq(batch_cols(self)[c], mask_keep(mask@)) by {
                assert(batch_cols(&out)[c] == out.columns@[c]@);
                assert(batch_cols(self)[c] == self.columns@[c]@);
            }
        }
        Ok(out)
    }
}

/// A batch with the given schema and no rows.
pub fn empty_batch(schema: Schema) -> (r: RecordBatch)
    ensures
        r.wf(),
        r.schema@ == schema@,
        r.num_rows == 0,
        forall|c: int|
            0 <= c < r.schema@.len() ==> (#[trigger] batch_cols(&r)[c]) == Seq::<
                CellModel,
            >::empty(),
{
    let n: usize = schema.fields.len();
    let mut cols: Vec<ColumnData> = Vec::new();
    for c in 0..n
        invariant
            n == schema.fields@.len(),
            cols@.len() == c,
            forall|j: int|
                0 <= j < c ==> col_type(#[trigger] cols@[j]) == schema@[j].data_type,
            forall|j: int| 0 <= j < c ==> (#[trigger] cols@[j])@.len() == 0,
    {
        let col: ColumnData = match schema.fields[c].data_type {
            DataType::Int64 => ColumnData::Int64(Vec::new()),
            DataType::Float64 => ColumnData::Float64(Vec::new()),
            DataType::Utf8 => ColumnData::Utf8(Vec::new()),
            DataType::Boolean => ColumnData::Boolean(Vec::new()),
            DataType::Timestamp => ColumnData::Timestamp(Vec::new()),
        };
        cols.push(col);
    }
    let r = RecordBatch { schema, num_rows: 0, columns: cols };
    proof {
        assert forall|c: int| 0 <= c < r.schema@.len() implies (#[trigger] batch_cols(&r)[c])
            == Seq::<CellModel>::empty() by {
            assert(batch_cols(&r)[c] == r.columns@[c]@);
            assert(r.columns@[c]@ =~= Seq::<CellModel>::empty());
        }
    }
    r
}

/// Projection is associative: projecting by `p1` and then by `p2` gives
/// the projection by the composition `p1` after `p2`.
pub proof fn lemma_project_associative(
    schema: Seq<FieldModel>,
    cols: Seq<Seq<CellModel>>,
    p1: Seq<int>,
    p2: Seq<int>,
)
    requires
        forall|i: int| 0 <= i < p1.len() ==> 0 <= #[trigger] p1[i] < schema.len(),
        forall|i: int| 0 <= i < p2.len() ==> 0 <= #[trigger] p2[i] < p1.len(),
        cols.len() == schema.len(),
    ensures
        project_model(project_model(schema, p1), p2) == project_model(
            schema,
            p2.map_values(|i: int| p1[i]),
        ),
        select_cols(select_cols(cols, p1), p2) == select_cols(cols, p2.map_values(|i: int| p1[i])),
{
    let composed = p2.map_values(|i: int| p1[i]);
    assert(project_model(project_model(schema, p1), p2) =~= project_model(schema, composed));
    assert(select_cols(select_cols(cols, p1), p2) =~= select_cols(cols, composed));
}

} // verus!
