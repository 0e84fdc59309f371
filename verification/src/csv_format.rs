//! The delimited text codec: schema inference, streaming decode into
//! record batches, and encode back to text.
//!
//! Cell values are written as decimal text, float text verbatim,
//! `true`/`false` for booleans, and bytes for strings; nulls are written
//! empty. Decoding is type-directed by the schema: an empty cell of a
//! non-string column is null.

use vstd::prelude::*;

use crate::batch::CellModel;
use crate::batch::ColumnData;
use crate::batch::RecordBatch;
use crate::batch::batch_cols;
use crate::batch::cell_conforms;
use crate::bytesutil::clone_bytes;
use crate::bytesutil::slice_eq;
use crate::config::CsvConfig;
use crate::csvtext::csv_cfg_wf;
use crate::csvtext::csv_parse;
use crate::csvtext::deep_fields;
use crate::csvtext::deep_rows;
use crate::csvtext::enc_rows;
use crate::csvtext::encode_rows;
use crate::csvtext::lemma_csv_text_round_trip;
use crate::csvtext::parse_rows;
use crate::error::ConvertError;
use crate::error::ErrorKind;
use crate::numtext::digits_of;
use crate::numtext::int_text_of;
use crate::numtext::int_text_value;
use crate::numtext::is_float_text;
use crate::numtext::is_float_text_at;
use crate::numtext::is_int_text;
use crate::numtext::format_i64;
use crate::numtext::lemma_digits_of_value;
use crate::numtext::lemma_int_text_round_trip;
use crate::numtext::parse_i64;
use crate::schema::DataType;
use crate::schema::Field;
use crate::schema::FieldModel;
use crate::schema::Schema;

verus! {

/// The text of the boolean true value.
pub open spec fn true_text() -> Seq<u8> {
    seq![116u8, 114u8, 117u8, 101u8]
}

/// The text of the boolean false value.
pub open spec fn false_text() -> Seq<u8> {
    seq![102u8, 97u8, 108u8, 115u8, 101u8]
}

/// The text of one cell: nulls are empty, integers and timestamps are
/// canonical decimal, float and string cells carry their bytes.
pub open spec fn cell_text(c: CellModel) -> Seq<u8> {
    match c {
        CellModel::Null => Seq::empty(),
        CellModel::IntCell(v) => int_text_of(v),
        CellModel::FloatCell(t) => t,
        CellModel::StrCell(t) => t,
        CellModel::BoolCell(b) => if b {
            true_text()
        } else {
            false_text()
        },
        CellModel::TsCell(v) => int_text_of(v),
    }
}

/// The cell denoted by a text under a column type; none when the text
/// does not belong to the type's grammar.
pub open spec fn cell_of_text(t: Seq<u8>, dt: DataType) -> Option<CellModel> {
    if t.len() == 0 && dt != DataType::Utf8 {
        Some(CellModel::Null)
    } else {
        match dt {
            DataType::Int64 => if is_int_text(t) {
                Some(CellModel::IntCell(int_text_value(t)))
            } else {
                None
            },
            DataType::Float64 => if is_float_text(t) {
                Some(CellModel::FloatCell(t))
            } else {
                None
            },
            DataType::Utf8 => Some(CellModel::StrCell(t)),
            DataType::Boolean => if t == true_text() {
                Some(CellModel::BoolCell(true))
            } else if t == false_text() {
                Some(CellModel::BoolCell(false))
            } else {
                None
            },
            DataType::Timestamp => if is_int_text(t) {
                Some(CellModel::TsCell(int_text_value(t)))
            } else {
                None
            },
        }
    }
}

/// Cells that survive the text round trip: everything a conformant
/// batch can hold, except a null string cell (written empty, read back
/// as an empty string) and float text outside the float grammar.
pub open spec fn cell_round_trips(c: CellModel, dt: DataType) -> bool {
    &&& cell_conforms(c, dt)
    &&& (dt == DataType::Utf8 ==> c != CellModel::Null)
    &&& (c matches CellModel::FloatCell(t) ==> is_float_text(t))
}

/// Reading back the written text of a cell yields the cell.
pub proof fn lemma_cell_round_trip(c: CellModel, dt: DataType)
    requires
        cell_round_trips(c, dt),
    ensures
        cell_of_text(cell_text(c), dt) == Some(c),
{
    match c {
        CellModel::Null => {
        },
        CellModel::IntCell(v) => {
            lemma_int_text_round_trip(v);
            assert(int_text_of(v).len() > 0) by {
                if v < 0 {
                } else {
                    lemma_digits_of_value(v);
                }
            }
        },
        CellModel::FloatCell(t) => {
            assert(t.len() > 0) by {
                if t.len() == 0 {
                    assert(!is_float_text(t));
                }
            }
        },
        CellModel::StrCell(_) => {
        },
        CellModel::BoolCell(b) => {
            assert(true_text().len() == 4);
            assert(false_text().len() == 5);
            assert(true_text() != false_text()) by {
                assert(true_text().len() != false_text().len());
            }
        },
        CellModel::TsCell(v) => {
            lemma_int_text_round_trip(v);
            assert(int_text_of(v).len() > 0) by {
                if v < 0 {
                } else {
                    lemma_digits_of_value(v);
                }
            }
        },
    }
}

/// The text of row `r` of a batch, one entry per column.
pub open spec fn batch_text_row(b: &RecordBatch, r: int) -> Seq<Seq<u8>> {
    Seq::new(b.schema@.len(), |c: int| cell_text(batch_cols(b)[c][r]))
}

/// The text rows of a batch, in row order.
pub open spec fn batch_text_rows(b: &RecordBatch) -> Seq<Seq<Seq<u8>>> {
    Seq::new(b.num_rows as nat, |r: int| batch_text_row(b, r))
}

/// The typed cells of one text record under a schema: defined when the
/// record has one field per column and every field belongs to its
/// column's grammar.
pub open spec fn row_typed(vals: Seq<Seq<u8>>, schema: Seq<FieldModel>) -> Option<Seq<CellModel>> {
    if vals.len() == schema.len() && (forall|c: int|
        0 <= c < vals.len() ==> cell_of_text(#[trigger] vals[c], schema[c].data_type) is Some) {
        Some(Seq::new(vals.len(), |c: int| cell_of_text(vals[c], schema[c].data_type)->0))
    } else {
        None
    }
}

/// The typed cells of a sequence of text records.
pub open spec fn rows_typed(rows: Seq<Seq<Seq<u8>>>, schema: Seq<FieldModel>) -> Option<
    Seq<Seq<CellModel>>,
> {
    if forall|r: int| 0 <= r < rows.len() ==> row_typed(#[trigger] rows[r], schema) is Some {
        Some(Seq::new(rows.len(), |r: int| row_typed(rows[r], schema)->0))
    } else {
        None
    }
}

/// The data records of a parsed text: all records, less the header row
/// when one is configured.
pub open spec fn data_rows(parsed: Seq<Seq<Seq<u8>>>, has_header: bool) -> Seq<Seq<Seq<u8>>> {
    if has_header {
        if parsed.len() > 0 {
            parsed.drop_first()
        } else {
            parsed
        }
    } else {
        parsed
    }
}

/// Write the text of cell `r` of a column.
fn cell_text_at(col: &ColumnData, r: usize) -> (out: Vec<u8>)
    requires
        r < col@.len(),
    ensures
        out@ == cell_text(col@[r as int]),
{
    match col {
        ColumnData::Int64(v) => match &v[r] {
            Some(x) => format_i64(*x),
            None => Vec::new(),
        },
        ColumnData::Timestamp(v) => match &v[r] {
            Some(x) => format_i64(*x),
            None => Vec::new(),
        },
        ColumnData::Float64(v) => match &v[r] {
            Some(t) => clone_bytes(t),
            None => Vec::new(),
        },
        ColumnData::Utf8(v) => match &v[r] {
            Some(t) => clone_bytes(t),
            None => Vec::new(),
        },
        ColumnData::Boolean(v) => match &v[r] {
            Some(x) => {
                if *x {
                    let t: Vec<u8> = vec![116, 114, 117, 101];
                    proof {
                        assert(t@ =~= true_text());
                    }
                    t
                } else {
                    let t: Vec<u8> = vec![102, 97, 108, 115, 101];
                    proof {
                        assert(t@ =~= false_text());
                    }
                    t
                }
            },
            None => Vec::new(),
        },
    }
}

/// The sampled values of column `c`: one entry per record wide enough
/// to hold the column.
pub open spec fn col_samples(rows: Seq<Seq<Seq<u8>>>, c: int) -> Seq<Seq<u8>>
    decreases rows.len(),
{
    if rows.len() == 0 {
        Seq::empty()
    } else {
        col_samples(rows.drop_last(), c) + if rows.last().len() > c {
            seq![rows.last()[c]]
        } else {
            Seq::empty()
        }
    }
}

/// The narrowed type of a column over its sampled values: integer when
/// every non-empty value is an integer literal, float when every
/// non-empty value is a float literal, string otherwise; all-empty
/// samples default to string.
pub open spec fn inferred_type(vals: Seq<Seq<u8>>) -> DataType {
    if forall|i: int| 0 <= i < vals.len() ==> (#[trigger] vals[i]).len() == 0 {
        DataType::Utf8
    } else if forall|i: int|
        0 <= i < vals.len() ==> (#[trigger] vals[i]).len() == 0 || is_int_text(vals[i]) {
        DataType::Int64
    } else if forall|i: int|
        0 <= i < vals.len() ==> (#[trigger] vals[i]).len() == 0 || is_float_text(vals[i]) {
        DataType::Float64
    } else {
        DataType::Utf8
    }
}

/// Is an inferred column nullable: some sampled value of the column
/// is empty, or some sampled record is too narrow to hold the column.
pub open spec fn col_nullable(sampled: Seq<Seq<Seq<u8>>>, c: int) -> bool {
    let vals = col_samples(sampled, c);
    (exists|i: int| 0 <= i < vals.len() && (#[trigger] vals[i]).len() == 0) || vals.len()
        < sampled.len()
}

/// The synthesized name of column `i` when there is no header.
pub open spec fn col_name_text(i: int) -> Seq<u8> {
    seq![99u8, 111u8, 108u8, 117u8, 109u8, 110u8, 95u8] + digits_of(i)
}

/// The schema inferred from a text sample: names from the header row
/// (or synthesized), types narrowed over up to `sample` data records,
/// a field nullable exactly when a sampled value of its column is
/// empty or missing. None when the text does not parse.
pub open spec fn spec_infer(
    data: Seq<u8>,
    has_header: bool,
    sample: int,
    d: u8,
    q: u8,
) -> Option<Seq<FieldModel>> {
    match parse_rows(data, 0, d, q) {
        None => None,
        Some(parsed) => {
            let drows = data_rows(parsed, has_header);
            let sampled = if drows.len() > sample {
                drows.take(sample)
            } else {
                drows
            };
            let ncols: int = if parsed.len() > 0 {
                parsed.first().len() as int
            } else {
                0
            };
            Some(
                Seq::new(
                    ncols as nat,
                    |c: int|
                        FieldModel {
                            name: if has_header && parsed.len() > 0 {
                                parsed.first()[c]
                            } else {
                                col_name_text(c)
                            },
                            data_type: inferred_type(col_samples(sampled, c)),
                            nullable: col_nullable(sampled, c),
                        },
                ),
            )
        },
    }
}

/// Schema inference is a function of the sample and the configuration:
/// two inferences from the same input agree.
pub proof fn lemma_infer_schema_deterministic(
    data: Seq<u8>,
    has_header: bool,
    sample: int,
    d: u8,
    q: u8,
    s1: Seq<FieldModel>,
    s2: Seq<FieldModel>,
)
    requires
        spec_infer(data, has_header, sample, d, q) == Some(s1),
        spec_infer(data, has_header, sample, d, q) == Some(s2),
    ensures
        s1 == s2,
{
}

/// The delimited text codec: an optional declared schema and the
/// decode/encode settings.
#[derive(Debug)]
pub struct CsvFormat {
    pub schema: Option<Schema>,
    pub has_header: bool,
    pub batch_size: usize,
    pub sample_size: usize,
    pub delimiter: u8,
    pub quote: u8,
}

impl Clone for CsvFormat {
    fn clone(&self) -> (r: CsvFormat)
        ensures
            r.schema is Some <==> self.schema is Some,
            r.schema matches Some(s) ==> s@ == self.schema->0@,
            r.has_header == self.has_header,
            r.batch_size == self.batch_size,
            r.sample_size == self.sample_size,
            r.delimiter == self.delimiter,
            r.quote == self.quote,
            self.wf() ==> r.wf(),
    {
        CsvFormat {
            schema: match &self.schema {
                Some(s) => Some(s.clone()),
                None => None,
            },
            has_header: self.has_header,
            batch_size: self.batch_size,
            sample_size: self.sample_size,
            delimiter: self.delimiter,
            quote: self.quote,
        }
    }
}

impl CsvFormat {
    /// A usable codec: a positive batch size and a workable pair of
    /// delimiter and quote.
    pub open spec fn wf(&self) -> bool {
        &&& self.batch_size >= 1
        &&& self.sample_size >= 1
        &&& csv_cfg_wf(self.delimiter, self.quote)
    }

    /// A codec that infers its schema, with the default comma and
    /// double-quote characters and a sample of 1000 records.
    pub fn new(has_header: bool, batch_size: usize) -> (r: CsvFormat)
        requires
            batch_size >= 1,
        ensures
            r.wf(),
            r.schema is None,
            r.has_header == has_header,
            r.batch_size == batch_size,
            r.sample_size == 1000,
            r.delimiter == 44,
            r.quote == 34,
    {
        CsvFormat {
            schema: None,
            has_header,
            batch_size,
            sample_size: 1000,
            delimiter: 44,
            quote: 34,
        }
    }

    /// A codec with a declared schema.
    pub fn with_schema(schema: Schema, has_header: bool, batch_size: usize) -> (r: CsvFormat)
        requires
            batch_size >= 1,
        ensures
            r.wf(),
            r.schema matches Some(s) && s@ == schema@,
            r.has_header == has_header,
            r.batch_size == batch_size,
            r.delimiter == 44,
            r.quote == 34,
    {
        CsvFormat {
            schema: Some(schema),
            has_header,
            batch_size,
            sample_size: 1000,
            delimiter: 44,
            quote: 34,
        }
    }

    /// A codec configured from the format settings.
    pub fn with_config(config: &CsvConfig) -> (r: CsvFormat)
        requires
            config.batch_size >= 1,
            config.schema_sample_size >= 1,
            csv_cfg_wf(config.delimiter, config.quote),
        ensures
            r.wf(),
            r.schema is None,
            r.has_header == config.default_has_header,
            r.batch_size == config.batch_size,
            r.sample_size == config.schema_sample_size,
            r.delimiter == config.delimiter,
            r.quote == config.quote,
    {
        CsvFormat {
            schema: None,
            has_header: config.default_has_header,
            batch_size: config.batch_size,
            sample_size: config.schema_sample_size,
            delimiter: config.delimiter,
            quote: config.quote,
        }
    }

    /// Infer the schema of a text sample, or return the declared one.
    ///
    /// Fails with a decode error exactly when no schema is declared and
    /// the sample does not parse.
    pub fn infer_schema(&self, data: &Vec<u8>) -> (r: Result<Schema, ConvertError>)
        requires
            self.wf(),
        ensures
            match r {
                Ok(s) => (self.schema matches Some(declared) && s@ == declared@) || (
                self.schema is None && spec_infer(
                    data@,
                    self.has_header,
                    self.sample_size as int,
                    self.delimiter,
                    self.quote,
                ) == Some(s@)),
                Err(e) => {
                    &&& self.schema is None
                    &&& spec_infer(
                        data@,
                        self.has_header,
                        self.sample_size as int,
                        self.delimiter,
                        self.quote,
                    ) is None
                    &&& e.kind == ErrorKind::Decode
                },
            },
    {
        if let Some(declared) = &self.schema {
            return Ok(declared.clone());
        }
        let parsed = match csv_parse(data.as_slice(), self.delimiter, self.quote) {
            Some(rows) => rows,
            None => {
                return Err(ConvertError::text(ErrorKind::Decode, "sample does not parse"));
            },
        };
        let ghost parsed_view = deep_rows(parsed@);
        let ncols: usize = if parsed.len() > 0 {
            parsed[0].len()
        } else {
            0
        };
        let start: usize = if self.has_header && parsed.len() > 0 {
            1
        } else {
            0
        };
        let end: usize = if parsed.len() - start > self.sample_size {
            start + self.sample_size
        } else {
            parsed.len()
        };
        let ghost drows = data_rows(parsed_view, self.has_header);
        let ghost sampled = if drows.len() > self.sample_size as int {
            drows.take(self.sample_size as int)
        } else {
            drows
        };
        proof {
            assert(sampled.len() == end - start);
            assert(forall|k: int|
                0 <= k < sampled.len() ==> #[trigger] sampled[k] == parsed_view[start + k]);
            if parsed@.len() > 0 {
                assert(parsed_view.first() == deep_fields(parsed@[0]@));
            }
        }
        let mut fields: Vec<Field> = Vec::new();
        for c in 0..ncols
            invariant
                self.wf(),
                self.schema is None,
                parsed_view == deep_rows(parsed@),
                parse_rows(data@, 0, self.delimiter, self.quote) == Some(parsed_view),
                drows == data_rows(parsed_view, self.has_header),
                sampled == if drows.len() > self.sample_size as int {
                    drows.take(self.sample_size as int)
                } else {
                    drows
                },
                sampled.len() == end - start,
                forall|k: int|
                    0 <= k < sampled.len() ==> #[trigger] sampled[k] == parsed_view[start + k],
                start <= end <= parsed@.len(),
                start == if self.has_header && parsed@.len() > 0 {
                    1int
                } else {
                    0int
                },
                ncols == if parsed_view.len() > 0 {
                    parsed_view.first().len() as int
                } else {
                    0int
                },
                parsed_view.len() == parsed@.len(),
                fields@.len() == c,
                forall|j: int|
                    0 <= j < c ==> (#[trigger] fields@[j])@ == (spec_infer(
                        data@,
                        self.has_header,
                        self.sample_size as int,
                        self.delimiter,
                        self.quote,
                    )->0)[j],
        {
            // Narrow the type over the sampled values of this column.
            proof {
                assert(sampled.take(0) =~= Seq::<Seq<Seq<u8>>>::empty());
                assert(col_samples(sampled.take(0), c as int) =~= Seq::<Seq<u8>>::empty());
            }
            let mut any_nonempty: bool = false;
            let mut any_empty: bool = false;
            let mut all_present: bool = true;
            let mut all_int: bool = true;
            let mut all_float: bool = true;
            let mut k: usize = start;
            while k < end
                invariant
                    parsed_view == deep_rows(parsed@),
                    parsed_view.len() == parsed@.len(),
                    start <= k <= end,
                    start <= end <= parsed@.len(),
                    sampled.len() == end - start,
                    forall|j: int|
                        0 <= j < sampled.len() ==> #[trigger] sampled[j] == parsed_view[start + j],
                    any_nonempty <==> exists|i: int|
                        0 <= i < col_samples(sampled.take(k - start), c as int).len()
                            && (#[trigger] col_samples(sampled.take(k - start), c as int)[i]).len()
                            > 0,
                    any_empty <==> exists|i: int|
                        0 <= i < col_samples(sampled.take(k - start), c as int).len()
                            && (#[trigger] col_samples(sampled.take(k - start), c as int)[i]).len()
                            == 0,
                    col_samples(sampled.take(k - start), c as int).len() <= k - start,
                    all_present <==> col_samples(sampled.take(k - start), c as int).len() == k
                        - start,
                    all_int <==> forall|i: int|
                        0 <= i < col_samples(sampled.take(k - start), c as int).len()
                            ==> (#[trigger] col_samples(sampled.take(k - start), c as int)[i]).len()
                            == 0 || is_int_text(col_samples(sampled.take(k - start), c as int)[i]),
                    all_float <==> forall|i: int|
                        0 <= i < col_samples(sampled.take(k - start), c as int).len()
                            ==> (#[trigger] col_samples(sampled.take(k - start), c as int)[i]).len()
                            == 0 || is_float_text(
                            col_samples(sampled.take(k - start), c as int)[i],
                        ),
                decreases end - k,
            {
                let ghost m = k - start;
                let ghost cs_old = col_samples(sampled.take(m), c as int);
                proof {
                    assert(sampled.take(m + 1).drop_last() =~= sampled.take(m));
                    assert(sampled.take(m + 1).last() == sampled[m]);
                    assert(sampled[m] == parsed_view[k as int]);
                }
                if c < parsed[k].len() {
                    let t = &parsed[k][c];
                    proof {
                        assert(parsed_view[k as int] == deep_fields(parsed@[k as int]@));
                        assert(parsed_view[k as int][c as int] == t@);
                        assert(col_samples(sampled.take(m + 1), c as int) =~= cs_old.push(t@));
                    }
                    let nonempty = t.len() > 0;
                    let ghost was_nonempty = any_nonempty;
                    let ghost was_empty = any_empty;
                    let ghost was_int = all_int;
                    let ghost was_float = all_float;
                    if nonempty {
                        any_nonempty = true;
                    } else {
                        any_empty = true;
                    }
                    let ok_int = t.len() == 0 || parse_i64(t.as_slice()).is_some();
                    let ok_float = t.len() == 0 || is_float_text_at(t.as_slice());
                    if !ok_int {
                        all_int = false;
                    }
                    if !ok_float {
                        all_float = false;
                    }
                    proof {
                        let cs_new = col_samples(sampled.take(m + 1), c as int);
                        assert(cs_new == cs_old.push(t@));
                        assert(forall|i: int| 0 <= i < cs_old.len() ==> #[trigger] cs_new[i] == cs_old[i]);
                        assert(cs_new[cs_old.len() as int] == t@);
                        assert(any_nonempty <==> exists|i: int|
                            0 <= i < cs_new.len() && (#[trigger] cs_new[i]).len() > 0) by {
                            if any_nonempty {
                                if was_nonempty {
                                    let w = choose|i: int|
                                        0 <= i < cs_old.len() && (#[trigger] cs_old[i]).len() > 0;
                                    assert(cs_new[w].len() > 0);
                                } else {
                                    assert(cs_new[cs_old.len() as int].len() > 0);
                                }
                            } else {
                                assert(forall|i: int|
                                    0 <= i < cs_old.len() ==> (#[trigger] cs_old[i]).len() == 0);
                                assert(forall|i: int|
                                    0 <= i < cs_new.len() ==> (#[trigger] cs_new[i]).len() == 0);
                            }
                        }
                        assert(any_empty <==> exists|i: int|
                            0 <= i < cs_new.len() && (#[trigger] cs_new[i]).len() == 0) by {
                            if any_empty {
                                if was_empty {
                                    let w = choose|i: int|
                                        0 <= i < cs_old.len() && (#[trigger] cs_old[i]).len() == 0;
                                    assert(cs_new[w].len() == 0);
                                } else {
                                    assert(cs_new[cs_old.len() as int].len() == 0);
                                }
                            } else {
                                assert(forall|i: int|
                                    0 <= i < cs_old.len() ==> (#[trigger] cs_old[i]).len() > 0);
                                assert(forall|i: int|
                                    0 <= i < cs_new.len() ==> (#[trigger] cs_new[i]).len() > 0);
                            }
                        }
                        assert(all_int <==> forall|i: int|
                            0 <= i < cs_new.len() ==> (#[trigger] cs_new[i]).len() == 0
                                || is_int_text(cs_new[i])) by {
                            if all_int {
                                assert(forall|i: int|
                                    0 <= i < cs_new.len() ==> (#[trigger] cs_new[i]).len() == 0
                                        || is_int_text(cs_new[i]));
                            } else {
                                if !was_int {
                                    let w = choose|i: int|
                                        0 <= i < cs_old.len() && !((#[trigger] cs_old[i]).len() == 0
                                            || is_int_text(cs_old[i]));
                                    assert(!(cs_new[w].len() == 0 || is_int_text(cs_new[w])));
                                } else {
                                    assert(!(cs_new[cs_old.len() as int].len() == 0 || is_int_text(
                                        cs_new[cs_old.len() as int],
                                    )));
                                }
                            }
                        }
                        assert(all_float <==> forall|i: int|
                            0 <= i < cs_new.len() ==> (#[trigger] cs_new[i]).len() == 0
                                || is_float_text(cs_new[i])) by {
                            if all_float {
                                assert(forall|i: int|
                                    0 <= i < cs_new.len() ==> (#[trigger] cs_new[i]).len() == 0
                                        || is_float_text(cs_new[i]));
                            } else {
                                if !was_float {
                                    let w = choose|i: int|
                                        0 <= i < cs_old.len() && !((#[trigger] cs_old[i]).len() == 0
                                            || is_float_text(cs_old[i]));
                                    assert(!(cs_new[w].len() == 0 || is_float_text(cs_new[w])));
                                } else {
                                    assert(!(cs_new[cs_old.len() as int].len() == 0
                                        || is_float_text(cs_new[cs_old.len() as int])));
                                }
                            }
                        }
                    }
                } else {
                    all_present = false;
                    proof {
                        assert(parsed_view[k as int] == deep_fields(parsed@[k as int]@));
                        assert(parsed_view[k as int].len() <= c as int);
                        assert(col_samples(sampled.take(m + 1), c as int) =~= cs_old);
                    }
                }
                proof {
                    let cs_next = col_samples(sampled.take(k + 1 - start), c as int);
                    assert(cs_next == col_samples(sampled.take(m + 1), c as int));
                    assert(any_nonempty <==> exists|i: int|
                        0 <= i < cs_next.len() && (#[trigger] cs_next[i]).len() > 0);
                    assert(all_int <==> forall|i: int|
                        0 <= i < cs_next.len() ==> (#[trigger] cs_next[i]).len() == 0
                            || is_int_text(cs_next[i]));
                    assert(all_float <==> forall|i: int|
                        0 <= i < cs_next.len() ==> (#[trigger] cs_next[i]).len() == 0
                            || is_float_text(cs_next[i]));
                    assert(any_empty <==> exists|i: int|
                        0 <= i < cs_next.len() && (#[trigger] cs_next[i]).len() == 0);
                    assert(cs_next.len() <= k + 1 - start);
                    assert(all_present <==> cs_next.len() == k + 1 - start);
                }
                k = k + 1;
            }
            let dt: DataType = if !any_nonempty {
                DataType::Utf8
            } else if all_int {
                DataType::Int64
            } else if all_float {
                DataType::Float64
            } else {
                DataType::Utf8
            };
            let nullable = any_empty || !all_present;
            proof {
                assert(sampled.take(end - start) =~= sampled);
                let vals = col_samples(sampled, c as int);
                assert(any_nonempty <==> !(forall|i: int|
                    0 <= i < vals.len() ==> (#[trigger] vals[i]).len() == 0));
                assert(dt == inferred_type(vals));
                assert(nullable == col_nullable(sampled, c as int));
            }
            let name: Vec<u8> = if self.has_header && parsed.len() > 0 {
                if c < parsed[0].len() {
                    clone_bytes(&parsed[0][c])
                } else {
                    Vec::new()
                }
            } else {
                let mut prefix: Vec<u8> = vec![99, 111, 108, 117, 109, 110, 95];
                let mut digits = crate::numtext::format_u64(c as u64);
                prefix.append(&mut digits);
                proof {
                    assert(prefix@ =~= col_name_text(c as int));
                }
                prefix
            };
            proof {
                if self.has_header && parsed@.len() > 0 {
                    assert(parsed_view.first() == deep_fields(parsed@[0]@));
                    assert(parsed_view.first()[c as int] == parsed@[0]@[c as int]@);
                }
            }
            fields.push(Field { name, data_type: dt, nullable });
        }
        let s = Schema { fields };
        proof {
            let inferred = spec_infer(
                data@,
                self.has_header,
                self.sample_size as int,
                self.delimiter,
                self.quote,
            )->0;
            assert(s@ =~= inferred);
        }
        Ok(s)
    }
}

/// Is a whole text decodable under a schema: it parses, and its data
/// records type-check column by column?
pub open spec fn decode_ok(
    data: Seq<u8>,
    schema: Seq<FieldModel>,
    has_header: bool,
    d: u8,
    q: u8,
) -> bool {
    &&& parse_rows(data, 0, d, q) is Some
    &&& rows_typed(data_rows(parse_rows(data, 0, d, q)->0, has_header), schema) is Some
}

/// The typed rows a decodable text denotes.
pub open spec fn decoded_cells(
    data: Seq<u8>,
    schema: Seq<FieldModel>,
    has_header: bool,
    d: u8,
    q: u8,
) -> Seq<Seq<CellModel>> {
    rows_typed(data_rows(parse_rows(data, 0, d, q)->0, has_header), schema)->0
}

/// The schema decoding goes by: the declared one, or the inferred one.
pub open spec fn effective_fields(fmt: &CsvFormat, data: Seq<u8>) -> Option<Seq<FieldModel>> {
    match fmt.schema {
        Some(s) => Some(s@),
        None => spec_infer(data, fmt.has_header, fmt.sample_size as int, fmt.delimiter, fmt.quote),
    }
}

/// How many batches a row count fills at a batch size.
pub open spec fn chunk_count(n: int, batch: int) -> int {
    (n + batch - 1) / batch
}

/// Columns `c` of the text records with absolute indices in `[lo, hi)`
/// convert cell by cell to `cells` under type `dt`.
pub open spec fn cells_match(
    rowsv: Seq<Seq<Seq<u8>>>,
    cells: Seq<CellModel>,
    lo: int,
    hi: int,
    c: int,
    dt: DataType,
) -> bool {
    forall|ar: int|
        lo <= ar < hi ==> (#[trigger] cell_of_text(rowsv[ar][c], dt)) is Some && cells[ar - lo]
            == cell_of_text(rowsv[ar][c], dt)->0
}

/// Build one batch from the text records in `[lo, hi)`.
fn typed_batch(rows: &Vec<Vec<Vec<u8>>>, lo: usize, hi: usize, schema: &Schema) -> (r: Result<
    RecordBatch,
    ConvertError,
>)
    requires
        lo <= hi <= rows@.len(),
        forall|rr: int| lo <= rr < hi ==> (#[trigger] deep_rows(rows@)[rr]).len() == schema@.len(),
    ensures
        match r {
            Ok(b) => {
                &&& b.wf()
                &&& b.schema@ == schema@
                &&& b.num_rows == hi - lo
                &&& forall|ar: int, c: int|
                    lo <= ar < hi && 0 <= c < schema@.len() ==> (#[trigger] cell_of_text(
                        deep_rows(rows@)[ar][c],
                        schema@[c].data_type,
                    )) is Some
                &&& forall|rr: int, c: int|
                    0 <= rr < hi - lo && 0 <= c < schema@.len() ==> #[trigger] batch_cols(
                        &b,
                    )[c][rr] == cell_of_text(
                        deep_rows(rows@)[lo + rr][c],
                        schema@[c].data_type,
                    )->0
            },
            Err(e) => {
                &&& e.kind == ErrorKind::Decode
                &&& exists|rr: int, c: int|
                    lo <= rr < hi && 0 <= c < schema@.len() && cell_of_text(
                        #[trigger] deep_rows(rows@)[rr][c],
                        schema@[c].data_type,
                    ) is None
            },
        },
{
    let ncols: usize = schema.fields.len();
    let mut cols: Vec<ColumnData> = Vec::new();
    for c in 0..ncols
        invariant
            lo <= hi <= rows@.len(),
            ncols == schema@.len(),
            forall|rr: int|
                lo <= rr < hi ==> (#[trigger] deep_rows(rows@)[rr]).len() == schema@.len(),
            cols@.len() == c,
            forall|cc: int|
                0 <= cc < c ==> crate::batch::col_type(#[trigger] cols@[cc])
                    == schema@[cc].data_type,
            forall|cc: int| 0 <= cc < c ==> (#[trigger] cols@[cc])@.len() == hi - lo,
            forall|cc: int|
                0 <= cc < c ==> cells_match(
                    deep_rows(rows@),
                    (#[trigger] cols@[cc])@,
                    lo as int,
                    hi as int,
                    cc,
                    schema@[cc].data_type,
                ),
    {
        let dt = schema.fields[c].data_type;
        let built: ColumnData = match dt {
            DataType::Int64 => {
                let mut vals: Vec<Option<i64>> = Vec::new();
                let mut rr: usize = lo;
                while rr < hi
                    invariant
                        lo <= rr <= hi <= rows@.len(),
                        c < schema@.len(),
                        schema@[c as int].data_type == DataType::Int64,
                        forall|j: int|
                            lo <= j < hi ==> (#[trigger] deep_rows(rows@)[j]).len()
                                == schema@.len(),
                        vals@.len() == rr - lo,
                        cells_match(
                            deep_rows(rows@),
                            crate::batch::int_cells(vals@),
                            lo as int,
                            rr as int,
                            c as int,
                            DataType::Int64,
                        ),
                    decreases hi - rr,
                {
                    proof {
                        assert(deep_rows(rows@)[rr as int] == deep_fields(rows@[rr as int]@));
                    }
                    let t = &rows[rr][c];
                    proof {
                        assert(deep_rows(rows@)[rr as int][c as int] == t@);
                    }
                    let ghost prev = vals@;
                    if t.len() == 0 {
                        vals.push(None);
                        proof {
                            assert(crate::batch::int_cells(vals@) =~= crate::batch::int_cells(
                                prev,
                            ).push(CellModel::Null));
                            assert(cell_of_text(t@, DataType::Int64) == Some(CellModel::Null));
                        }
                    } else {
                        match parse_i64(t.as_slice()) {
                            Some(v) => {
                                vals.push(Some(v));
                                proof {
                                    assert(crate::batch::int_cells(vals@)
                                        =~= crate::batch::int_cells(prev).push(
                                        CellModel::IntCell(v as int),
                                    ));
                                    assert(cell_of_text(t@, DataType::Int64) == Some(
                                        CellModel::IntCell(v as int),
                                    ));
                                }
                            },
                            None => {
                                proof {
                                    assert(cell_of_text(
                                        deep_rows(rows@)[rr as int][c as int],
                                        DataType::Int64,
                                    ) is None);
                                }
                                return Err(
                                    ConvertError::text(
                                        ErrorKind::Decode,
                                        "value is not a 64-bit integer",
                                    ),
                                );
                            },
                        }
                    }
                    proof {
                        assert forall|ar: int| lo <= ar < rr + 1 implies (#[trigger] cell_of_text(
                            deep_rows(rows@)[ar][c as int],
                            DataType::Int64,
                        )) is Some && crate::batch::int_cells(vals@)[ar - lo] == cell_of_text(
                            deep_rows(rows@)[ar][c as int],
                            DataType::Int64,
                        )->0 by {
                            if ar < rr {
                                assert(crate::batch::int_cells(vals@)[ar - lo]
                                    == crate::batch::int_cells(prev)[ar - lo]);
                            } else {
                                assert(ar == rr as int);
                                assert(crate::batch::int_cells(vals@)[ar - lo]
                                    == crate::batch::int_cells(vals@).last());
                            }
                        }
                    }
                    rr = rr + 1;
                }
                ColumnData::Int64(vals)
            },
            DataType::Timestamp => {
                let mut vals: Vec<Option<i64>> = Vec::new();
                let mut rr: usize = lo;
                while rr < hi
                    invariant
                        lo <= rr <= hi <= rows@.len(),
                        c < schema@.len(),
                        schema@[c as int].data_type == DataType::Timestamp,
                        forall|j: int|
                            lo <= j < hi ==> (#[trigger] deep_rows(rows@)[j]).len()
                                == schema@.len(),
                        vals@.len() == rr - lo,
                        cells_match(
                            deep_rows(rows@),
                            crate::batch::ts_cells(vals@),
                            lo as int,
                            rr as int,
                            c as int,
                            DataType::Timestamp,
                        ),
                    decreases hi - rr,
                {
                    proof {
                        assert(deep_rows(rows@)[rr as int] == deep_fields(rows@[rr as int]@));
                    }
                    let t = &rows[rr][c];
                    proof {
                        assert(deep_rows(rows@)[rr as int][c as int] == t@);
                    }
                    let ghost prev = vals@;
                    if t.len() == 0 {
                        vals.push(None);
                        proof {
                            assert(crate::batch::ts_cells(vals@) =~= crate::batch::ts_cells(
                                prev,
                            ).push(CellModel::Null));
                            assert(cell_of_text(t@, DataType::Timestamp) == Some(CellModel::Null));
                        }
                    } else {
                        match parse_i64(t.as_slice()) {
                            Some(v) => {
                                vals.push(Some(v));
                                proof {
                                    assert(crate::batch::ts_cells(vals@)
                                        =~= crate::batch::ts_cells(prev).push(
                                        CellModel::TsCell(v as int),
                                    ));
                                    assert(cell_of_text(t@, DataType::Timestamp) == Some(
                                        CellModel::TsCell(v as int),
                                    ));
                                }
                            },
                            None => {
                                proof {
                                    assert(cell_of_text(
                                        deep_rows(rows@)[rr as int][c as int],
                                        DataType::Timestamp,
                                    ) is None);
                                }
                                return Err(
                                    ConvertError::text(
                                        ErrorKind::Decode,
                                        "value is not a 64-bit timestamp",
                                    ),
                                );
                            },
                        }
                    }
                    proof {
                        assert forall|ar: int| lo <= ar < rr + 1 implies (#[trigger] cell_of_text(
                            deep_rows(rows@)[ar][c as int],
                            DataType::Timestamp,
                        )) is Some && crate::batch::ts_cells(vals@)[ar - lo] == cell_of_text(
                            deep_rows(rows@)[ar][c as int],
                            DataType::Timestamp,
                        )->0 by {
                            if ar < rr {
                                assert(crate::batch::ts_cells(vals@)[ar - lo]
                                    == crate::batch::ts_cells(prev)[ar - lo]);
                            } else {
                                assert(ar == rr as int);
                                assert(crate::batch::ts_cells(vals@)[ar - lo]
                                    == crate::batch::ts_cells(vals@).last());
                            }
                        }
                    }
                    rr = rr + 1;
                }
                ColumnData::Timestamp(vals)
            },
            DataType::Float64 => {
                let mut vals: Vec<Option<Vec<u8>>> = Vec::new();
                let mut rr: usize = lo;
                while rr < hi
                    invariant
                        lo <= rr <= hi <= rows@.len(),
                        c < schema@.len(),
                        schema@[c as int].data_type == DataType::Float64,
                        forall|j: int|
                            lo <= j < hi ==> (#[trigger] deep_rows(rows@)[j]).len()
                                == schema@.len(),
                        vals@.len() == rr - lo,
                        cells_match(
                            deep_rows(rows@),
                            crate::batch::float_cells(vals@),
                            lo as int,
                            rr as int,
                            c as int,
                            DataType::Float64,
                        ),
                    decreases hi - rr,
                {
                    proof {
                        assert(deep_rows(rows@)[rr as int] == deep_fields(rows@[rr as int]@));
                    }
                    let t = &rows[rr][c];
                    proof {
                        assert(deep_rows(rows@)[rr as int][c as int] == t@);
                    }
                    let ghost prev = vals@;
                    if t.len() == 0 {
                        vals.push(None);
                        proof {
                            assert(crate::batch::float_cells(vals@) =~= crate::batch::float_cells(
                                prev,
                            ).push(CellModel::Null));
                            assert(cell_of_text(t@, DataType::Float64) == Some(CellModel::Null));
                        }
                    } else if is_float_text_at(t.as_slice()) {
                        let copied = clone_bytes(t);
                        vals.push(Some(copied));
                        proof {
                            assert(crate::batch::float_cells(vals@) =~= crate::batch::float_cells(
                                prev,
                            ).push(CellModel::FloatCell(t@)));
                            assert(cell_of_text(t@, DataType::Float64) == Some(
                                CellModel::FloatCell(t@),
                            ));
                        }
                    } else {
                        proof {
                            assert(cell_of_text(
                                deep_rows(rows@)[rr as int][c as int],
                                DataType::Float64,
                            ) is None);
                        }
                        return Err(
                            ConvertError::text(ErrorKind::Decode, "value is not a 64-bit float"),
                        );
                    }
                    proof {
                        assert forall|ar: int| lo <= ar < rr + 1 implies (#[trigger] cell_of_text(
                            deep_rows(rows@)[ar][c as int],
                            DataType::Float64,
                        )) is Some && crate::batch::float_cells(vals@)[ar - lo] == cell_of_text(
                            deep_rows(rows@)[ar][c as int],
                            DataType::Float64,
                        )->0 by {
                            if ar < rr {
                                assert(crate::batch::float_cells(vals@)[ar - lo]
                                    == crate::batch::float_cells(prev)[ar - lo]);
                            } else {
                                assert(ar == rr as int);
                                assert(crate::batch::float_cells(vals@)[ar - lo]
                                    == crate::batch::float_cells(vals@).last());
                            }
                        }
                    }
                    rr = rr + 1;
                }
                ColumnData::Float64(vals)
            },
            DataType::Utf8 => {
                let mut vals: Vec<Option<Vec<u8>>> = Vec::new();
                let mut rr: usize = lo;
                while rr < hi
                    invariant
                        lo <= rr <= hi <= rows@.len(),
                        c < schema@.len(),
                        schema@[c as int].data_type == DataType::Utf8,
                        forall|j: int|
                            lo <= j < hi ==> (#[trigger] deep_rows(rows@)[j]).len()
                                == schema@.len(),
                        vals@.len() == rr - lo,
                        cells_match(
                            deep_rows(rows@),
                            crate::batch::str_cells(vals@),
                            lo as int,
                            rr as int,
                            c as int,
                            DataType::Utf8,
                        ),
                    decreases hi - rr,
                {
                    proof {
                        assert(deep_rows(rows@)[rr as int] == deep_fields(rows@[rr as int]@));
                    }
                    let t = &rows[rr][c];
                    proof {
                        assert(deep_rows(rows@)[rr as int][c as int] == t@);
                    }
                    let ghost prev = vals@;
                    let copied = clone_bytes(t);
                    vals.push(Some(copied));
                    proof {
                        assert(crate::batch::str_cells(vals@) =~= crate::batch::str_cells(
                            prev,
                        ).push(CellModel::StrCell(t@)));
                        assert(cell_of_text(t@, DataType::Utf8) == Some(CellModel::StrCell(t@)));
                        assert forall|ar: int| lo <= ar < rr + 1 implies (#[trigger] cell_of_text(
                            deep_rows(rows@)[ar][c as int],
                            DataType::Utf8,
                        )) is Some && crate::batch::str_cells(vals@)[ar - lo] == cell_of_text(
                            deep_rows(rows@)[ar][c as int],
                            DataType::Utf8,
                        )->0 by {
                            if ar < rr {
                                assert(crate::batch::str_cells(vals@)[ar - lo]
                                    == crate::batch::str_cells(prev)[ar - lo]);
                            } else {
                                assert(ar == rr as int);
                                assert(crate::batch::str_cells(vals@)[ar - lo]
                                    == crate::batch::str_cells(vals@).last());
                            }
                        }
                    }
                    rr = rr + 1;
                }
                ColumnData::Utf8(vals)
            },
            DataType::Boolean => {
                let tr: Vec<u8> = vec![116, 114, 117, 101];
                let fa: Vec<u8> = vec![102, 97, 108, 115, 101];
                proof {
                    assert(tr@ =~= true_text());
                    assert(fa@ =~= false_text());
                }
                let mut vals: Vec<Option<bool>> = Vec::new();
                let mut rr: usize = lo;
                while rr < hi
                    invariant
                        lo <= rr <= hi <= rows@.len(),
                        c < schema@.len(),
                        schema@[c as int].data_type == DataType::Boolean,
                        tr@ == true_text(),
                        fa@ == false_text(),
                        forall|j: int|
                            lo <= j < hi ==> (#[trigger] deep_rows(rows@)[j]).len()
                                == schema@.len(),
                        vals@.len() == rr - lo,
                        cells_match(
                            deep_rows(rows@),
                            crate::batch::bool_cells(vals@),
                            lo as int,
                            rr as int,
                            c as int,
                            DataType::Boolean,
                        ),
                    decreases hi - rr,
                {
                    proof {
                        assert(deep_rows(rows@)[rr as int] == deep_fields(rows@[rr as int]@));
                    }
                    let t = &rows[rr][c];
                    proof {
                        assert(deep_rows(rows@)[rr as int][c as int] == t@);
                    }
                    let ghost prev = vals@;
                    if t.len() == 0 {
                        vals.push(None);
                        proof {
                            assert(crate::batch::bool_cells(vals@) =~= crate::batch::bool_cells(
                                prev,
                            ).push(CellModel::Null));
                            assert(cell_of_text(t@, DataType::Boolean) == Some(CellModel::Null));
                        }
                    } else if slice_eq(t.as_slice(), tr.as_slice()) {
                        vals.push(Some(true));
                        proof {
                            assert(crate::batch::bool_cells(vals@) =~= crate::batch::bool_cells(
                                prev,
                            ).push(CellModel::BoolCell(true)));
                            assert(cell_of_text(t@, DataType::Boolean) == Some(
                                CellModel::BoolCell(true),
                            ));
                        }
                    } else if slice_eq(t.as_slice(), fa.as_slice()) {
                        vals.push(Some(false));
                        proof {
                            assert(crate::batch::bool_cells(vals@) =~= crate::batch::bool_cells(
                                prev,
                            ).push(CellModel::BoolCell(false)));
                            assert(cell_of_text(t@, DataType::Boolean) == Some(
                                CellModel::BoolCell(false),
                            ));
                        }
                    } else {
                        proof {
                            assert(cell_of_text(
                                deep_rows(rows@)[rr as int][c as int],
                                DataType::Boolean,
                            ) is None);
                        }
                        return Err(
                            ConvertError::text(ErrorKind::Decode, "value is not a boolean"),
                        );
                    }
                    proof {
                        assert forall|ar: int| lo <= ar < rr + 1 implies (#[trigger] cell_of_text(
                            deep_rows(rows@)[ar][c as int],
                            DataType::Boolean,
                        )) is Some && crate::batch::bool_cells(vals@)[ar - lo] == cell_of_text(
                            deep_rows(rows@)[ar][c as int],
                            DataType::Boolean,
                        )->0 by {
                            if ar < rr {
                                assert(crate::batch::bool_cells(vals@)[ar - lo]
                                    == crate::batch::bool_cells(prev)[ar - lo]);
                            } else {
                                assert(ar == rr as int);
                                assert(crate::batch::bool_cells(vals@)[ar - lo]
                                    == crate::batch::bool_cells(vals@).last());
                            }
                        }
                    }
                    rr = rr + 1;
                }
                ColumnData::Boolean(vals)
            },
        };
        proof {
            assert(built@.len() == hi - lo);
            assert(crate::batch::col_type(built) == schema@[c as int].data_type);
            assert(cells_match(
                deep_rows(rows@),
                built@,
                lo as int,
                hi as int,
                c as int,
                schema@[c as int].data_type,
            ));
        }
        cols.push(built);
    }
    let b = RecordBatch { schema: schema.clone(), num_rows: hi - lo, columns: cols };
    proof {
        assert forall|ar: int, c: int|
            lo <= ar < hi && 0 <= c < schema@.len() implies (#[trigger] cell_of_text(
            deep_rows(rows@)[ar][c],
            schema@[c].data_type,
        )) is Some by {
            assert(cells_match(
                deep_rows(rows@),
                b.columns@[c]@,
                lo as int,
                hi as int,
                c,
                schema@[c].data_type,
            ));
        }
        assert forall|rr: int, c: int|
            0 <= rr < hi - lo && 0 <= c < schema@.len() implies #[trigger] batch_cols(&b)[c][rr]
            == cell_of_text(deep_rows(rows@)[lo + rr][c], schema@[c].data_type)->0 by {
            assert(batch_cols(&b)[c] == b.columns@[c]@);
            assert(cells_match(
                deep_rows(rows@),
                b.columns@[c]@,
                lo as int,
                hi as int,
                c,
                schema@[c].data_type,
            ));
            assert(cell_of_text(deep_rows(rows@)[lo + rr][c], schema@[c].data_type) is Some);
            assert(b.columns@[c]@[(lo + rr) - lo] == cell_of_text(
                deep_rows(rows@)[lo + rr][c],
                schema@[c].data_type,
            )->0);
        }
    }
    Ok(b)
}

impl CsvFormat {
    /// Decode a whole text into record batches of at most the
    /// configured batch size; a parsed input with no data records
    /// decodes to one batch with no rows, so that an empty input
    /// round-trips through the pipeline.
    ///
    /// The schema is the declared one or the inferred one. The call
    /// succeeds exactly when that schema exists, the text parses, and
    /// every data record has one cell per column with each cell in its
    /// column's grammar; otherwise it fails with a decode error, or a
    /// schema error for a record of the wrong width.
    pub fn read_batches(&self, data: &Vec<u8>) -> (r: Result<Vec<RecordBatch>, ConvertError>)
        requires
            self.wf(),
        ensures
            match r {
                Ok(bs) => {
                    &&& effective_fields(self, data@) is Some
                    &&& decode_ok(
                        data@,
                        effective_fields(self, data@)->0,
                        self.has_header,
                        self.delimiter,
                        self.quote,
                    )
                    &&& {
                        let schema = effective_fields(self, data@)->0;
                        let cells = decoded_cells(
                            data@,
                            schema,
                            self.has_header,
                            self.delimiter,
                            self.quote,
                        );
                        &&& bs@.len() == (if cells.len() == 0 {
                            1int
                        } else {
                            chunk_count(cells.len() as int, self.batch_size as int)
                        })
                        &&& forall|k: int|
                            0 <= k < bs@.len() ==> {
                                &&& (#[trigger] bs@[k]).wf()
                                &&& bs@[k].schema@ == schema
                                &&& bs@[k].num_rows == if cells.len() - k * self.batch_size
                                    < self.batch_size {
                                    cells.len() - k * self.batch_size
                                } else {
                                    self.batch_size as int
                                }
                                &&& forall|rr: int, c: int|
                                    0 <= rr < bs@[k].num_rows && 0 <= c < schema.len()
                                        ==> #[trigger] batch_cols(&bs@[k])[c][rr] == cells[k
                                        * self.batch_size + rr][c]
                            }
                    }
                },
                Err(e) => {
                    &&& !(effective_fields(self, data@) is Some && decode_ok(
                        data@,
                        effective_fields(self, data@)->0,
                        self.has_header,
                        self.delimiter,
                        self.quote,
                    ))
                    &&& (e.kind == ErrorKind::Decode || e.kind == ErrorKind::Schema)
                },
            },
    {
        let schema = match self.infer_schema(data) {
            Ok(s) => s,
            Err(e) => {
                return Err(e);
            },
        };
        let parsed = match csv_parse(data.as_slice(), self.delimiter, self.quote) {
            Some(rows) => rows,
            None => {
                return Err(ConvertError::text(ErrorKind::Decode, "input does not parse"));
            },
        };
        let ghost parsed_view = deep_rows(parsed@);
        let ghost schema_view = schema@;
        proof {
            assert(effective_fields(self, data@) == Some(schema_view));
            assert(parse_rows(data@, 0, self.delimiter, self.quote) == Some(parsed_view));
        }
        let n: usize = parsed.len();
        let start: usize = if self.has_header && n > 0 {
            1
        } else {
            0
        };
        let ghost drows = data_rows(parsed_view, self.has_header);
        proof {
            assert(drows.len() == n - start);
            assert(forall|j: int|
                0 <= j < drows.len() ==> #[trigger] drows[j] == parsed_view[start + j]);
        }
        // Every data record must be exactly one cell per column.
        let ncols: usize = schema.fields.len();
        for rr in start..n
            invariant
                n == parsed@.len(),
                parsed_view == deep_rows(parsed@),
                schema_view == schema@,
                effective_fields(self, data@) == Some(schema_view),
                parse_rows(data@, 0, self.delimiter, self.quote) == Some(parsed_view),
                ncols == schema@.len(),
                start <= n,
                drows == data_rows(parsed_view, self.has_header),
                drows.len() == n - start,
                forall|j: int|
                    0 <= j < drows.len() ==> #[trigger] drows[j] == parsed_view[start + j],
                forall|j: int|
                    start <= j < rr ==> (#[trigger] parsed_view[j]).len() == schema@.len(),
        {
            proof {
                assert(parsed_view[rr as int] == deep_fields(parsed@[rr as int]@));
            }
            if parsed[rr].len() != ncols {
                proof {
                    assert(drows[rr - start].len() != schema_view.len());
                    assert(row_typed(drows[rr - start], schema_view) is None);
                }
                return Err(
                    ConvertError::text(ErrorKind::Schema, "record width differs from schema"),
                );
            }
        }
        let total: usize = n - start;
        let batch: usize = self.batch_size;
        let mut out: Vec<RecordBatch> = Vec::new();
        let mut lo: usize = start;
        let ghost mut k: int = 0;
        while lo < n
            invariant
                self.wf(),
                batch == self.batch_size,
                n == parsed@.len(),
                parsed_view == deep_rows(parsed@),
                schema_view == schema@,
                effective_fields(self, data@) == Some(schema_view),
                parse_rows(data@, 0, self.delimiter, self.quote) == Some(parsed_view),
                start <= lo <= n,
                total == n - start,
                drows == data_rows(parsed_view, self.has_header),
                drows.len() == total,
                forall|j: int|
                    0 <= j < drows.len() ==> #[trigger] drows[j] == parsed_view[start + j],
                forall|j: int|
                    start <= j < n ==> (#[trigger] parsed_view[j]).len() == schema@.len(),
                k >= 0,
                lo - start <= k * batch,
                lo < n ==> lo - start == k * batch,
                k == 0 || (k - 1) * batch < lo - start,
                out@.len() == k,
                forall|kk: int|
                    0 <= kk < k ==> {
                        &&& (#[trigger] out@[kk]).wf()
                        &&& out@[kk].schema@ == schema_view
                        &&& out@[kk].num_rows == if total - kk * batch < batch {
                            total - kk * batch
                        } else {
                            batch as int
                        }
                        &&& forall|rr: int, c: int|
                            0 <= rr < out@[kk].num_rows && 0 <= c < schema_view.len()
                                ==> #[trigger] batch_cols(&out@[kk])[c][rr] == cell_of_text(
                                parsed_view[start + kk * batch + rr][c],
                                schema_view[c].data_type,
                            )->0
                    },
                forall|ar: int, c: int|
                    start <= ar < lo && 0 <= c < schema_view.len() ==> (#[trigger] cell_of_text(
                        parsed_view[ar][c],
                        schema_view[c].data_type,
                    )) is Some,
            decreases n - lo,
        {
            let hi: usize = if n - lo > batch {
                lo + batch
            } else {
                n
            };
            let b = match typed_batch(&parsed, lo, hi, &schema) {
                Ok(b) => b,
                Err(e) => {
                    proof {
                        let (bad_r, bad_c): (int, int) = choose|bad_r: int, bad_c: int|
                            lo <= bad_r < hi && 0 <= bad_c < schema@.len() && cell_of_text(
                                #[trigger] deep_rows(parsed@)[bad_r][bad_c],
                                schema@[bad_c].data_type,
                            ) is None;
                        assert(drows[bad_r - start] == parsed_view[bad_r]);
                        assert(forall|cx: int|
                            0 <= cx < drows[bad_r - start].len() ==> #[trigger] drows[bad_r
                                - start][cx] == parsed_view[bad_r][cx]);
                        assert(cell_of_text(
                            drows[bad_r - start][bad_c],
                            schema_view[bad_c].data_type,
                        ) is None);
                        assert(row_typed(drows[bad_r - start], schema_view) is None);
                        assert(rows_typed(drows, schema_view) is None);
                    }
                    return Err(e);
                },
            };
            out.push(b);
            proof {
                let kk = k;
                assert forall|rr: int, c: int|
                    0 <= rr < out@[kk].num_rows && 0 <= c < schema_view.len()
                        implies #[trigger] batch_cols(&out@[kk])[c][rr] == cell_of_text(
                    parsed_view[start + kk * batch + rr][c],
                    schema_view[c].data_type,
                )->0 by {
                    assert(start + kk * batch + rr == lo + rr);
                    assert(batch_cols(&out@[kk])[c][rr] == cell_of_text(
                        deep_rows(parsed@)[lo + rr][c],
                        schema@[c].data_type,
                    )->0);
                }
                k = k + 1;
                assert(k * batch == (k - 1) * batch + batch) by (nonlinear_arith);
            }
            lo = hi;
        }
        if out.len() == 0 {
            out.push(crate::batch::empty_batch(schema));
        }
        proof {
            assert forall|j: int|
                0 <= j < drows.len() implies row_typed(#[trigger] drows[j], schema_view)
                is Some by {
                assert(drows[j] == parsed_view[start + j]);
                assert(drows[j].len() == schema_view.len());
                assert forall|cx: int|
                    0 <= cx < drows[j].len() implies cell_of_text(
                    #[trigger] drows[j][cx],
                    schema_view[cx].data_type,
                ) is Some by {
                    assert(drows[j][cx] == parsed_view[start + j][cx]);
                    assert(cell_of_text(parsed_view[start + j][cx], schema_view[cx].data_type)
                        is Some);
                }
            }
            assert(rows_typed(drows, schema_view) is Some);
            assert(k == chunk_count(total as int, batch as int)) by (nonlinear_arith)
                requires
                    batch >= 1,
                    total >= 0,
                    k >= 0,
                    total <= k * batch,
                    k == 0 && total == 0 || (k - 1) * batch < total,
            ;
            let cellsv = rows_typed(drows, schema_view)->0;
            assert forall|kk: int, rr: int, c: int|
                0 <= kk < out@.len() && 0 <= rr < out@[kk].num_rows && 0 <= c < schema_view.len()
                implies #[trigger] batch_cols(&out@[kk])[c][rr] == cellsv[kk * batch + rr][c] by {
                assert(batch_cols(&out@[kk])[c][rr] == cell_of_text(
                    parsed_view[start + kk * batch + rr][c],
                    schema_view[c].data_type,
                )->0);
                assert(0 <= kk * batch + rr < cellsv.len()) by (nonlinear_arith)
                    requires
                        batch >= 1,
                        0 <= kk,
                        0 <= rr,
                        rr < if total - kk * batch < batch {
                            total - kk * batch
                        } else {
                            batch as int
                        },
                        cellsv.len() == total,
                ;
                let i = kk * batch + rr;
                assert(cellsv[i] == row_typed(drows[i], schema_view)->0);
                assert(row_typed(drows[i], schema_view) is Some);
                assert(cellsv[i][c] == cell_of_text(drows[i][c], schema_view[c].data_type)->0);
                assert(drows[i] == parsed_view[start + i]);
                assert(drows[i][c] == parsed_view[start + i][c]);
            }
        }
        Ok(out)
    }
}


/// The text rows of a sequence of batches, in stream order.
pub open spec fn flat_text_rows(bs: Seq<RecordBatch>) -> Seq<Seq<Seq<u8>>>
    decreases bs.len(),
{
    if bs.len() == 0 {
        Seq::empty()
    } else {
        flat_text_rows(bs.drop_last()) + batch_text_rows(&bs.last())
    }
}

/// The header row of a schema: one name per field.
pub open spec fn header_row_of(schema: Seq<FieldModel>) -> Seq<Seq<u8>> {
    Seq::new(schema.len(), |c: int| schema[c].name)
}

/// Everything the encoder writes: the header row when configured, then
/// every batch's rows in order.
pub open spec fn csv_output_rows(bs: Seq<RecordBatch>, has_header: bool) -> Seq<Seq<Seq<u8>>> {
    if has_header && bs.len() > 0 {
        seq![header_row_of(bs[0].schema@)] + flat_text_rows(bs)
    } else {
        flat_text_rows(bs)
    }
}

impl CsvFormat {
    /// Encode batches as delimited text: the header iff configured,
    /// then rows in batch order.
    ///
    /// Fails with an encode error on an empty batch sequence and with a
    /// schema error exactly when a batch's schema differs from the
    /// first batch's.
    pub fn write_batches(&self, batches: &Vec<RecordBatch>) -> (r: Result<Vec<u8>, ConvertError>)
        requires
            self.wf(),
            forall|i: int| 0 <= i < batches@.len() ==> (#[trigger] batches@[i]).wf(),
        ensures
            match r {
                Ok(out) => {
                    &&& batches@.len() >= 1
                    &&& forall|i: int|
                        0 <= i < batches@.len() ==> (#[trigger] batches@[i]).schema@
                            == batches@[0].schema@
                    &&& out@ == enc_rows(
                        csv_output_rows(batches@, self.has_header),
                        self.delimiter,
                        self.quote,
                    )
                },
                Err(e) => {
                    ||| (batches@.len() == 0 && e.kind == ErrorKind::Encode)
                    ||| (e.kind == ErrorKind::Schema && exists|i: int|
                        0 <= i < batches@.len() && (#[trigger] batches@[i]).schema@
                            != batches@[0].schema@)
                },
            },
    {
        if batches.len() == 0 {
            return Err(ConvertError::text(ErrorKind::Encode, "no record batches to write"));
        }
        let mut rows: Vec<Vec<Vec<u8>>> = Vec::new();
        let ncols: usize = batches[0].schema.fields.len();
        if self.has_header {
            let mut hdr: Vec<Vec<u8>> = Vec::new();
            for c in 0..ncols
                invariant
                    ncols == batches@[0].schema@.len(),
                    batches@.len() >= 1,
                    hdr@.len() == c,
                    forall|j: int|
                        0 <= j < c ==> (#[trigger] hdr@[j])@ == batches@[0].schema@[j].name,
            {
                hdr.push(clone_bytes(&batches[0].schema.fields[c].name));
            }
            rows.push(hdr);
            proof {
                assert(deep_fields(rows@[0]@) =~= header_row_of(batches@[0].schema@));
                assert(deep_rows(rows@) =~= seq![header_row_of(batches@[0].schema@)]);
            }
        }
        let ghost base = deep_rows(rows@);
        let nb: usize = batches.len();
        for i in 0..nb
            invariant
                self.wf(),
                nb == batches@.len(),
                nb >= 1,
                forall|j: int| 0 <= j < nb ==> (#[trigger] batches@[j]).wf(),
                ncols == batches@[0].schema@.len(),
                base == if self.has_header {
                    seq![header_row_of(batches@[0].schema@)]
                } else {
                    Seq::<Seq<Seq<u8>>>::empty()
                },
                forall|j: int|
                    0 <= j < i ==> (#[trigger] batches@[j]).schema@ == batches@[0].schema@,
                deep_rows(rows@) == base + flat_text_rows(batches@.take(i as int)),
        {
            let b = &batches[i];
            if !b.schema.matches(&batches[0].schema) {
                return Err(ConvertError::text(ErrorKind::Schema, "batch schema differs from the first"));
            }
            let nr: usize = b.num_rows;
            let ghost batch_base = deep_rows(rows@);
            for rix in 0..nr
                invariant
                    self.wf(),
                    nb == batches@.len(),
                    i < nb,
                    batches@[i as int].wf(),
                    batches@[i as int].schema@ == batches@[0].schema@,
                    ncols == batches@[0].schema@.len(),
                    nr == batches@[i as int].num_rows,
                    deep_rows(rows@) == batch_base + batch_text_rows(&batches@[i as int]).take(
                        rix as int,
                    ),
            {
                let mut row: Vec<Vec<u8>> = Vec::new();
                for c in 0..ncols
                    invariant
                        nb == batches@.len(),
                        i < nb,
                        batches@[i as int].wf(),
                        batches@[i as int].schema@ == batches@[0].schema@,
                        ncols == batches@[0].schema@.len(),
                        nr == batches@[i as int].num_rows,
                        rix < nr,
                        row@.len() == c,
                        forall|j: int|
                            0 <= j < c ==> (#[trigger] row@[j])@ == cell_text(
                                batch_cols(&batches@[i as int])[j][rix as int],
                            ),
                {
                    proof {
                        assert(batches@[i as int].columns@.len()
                            == batches@[i as int].schema@.len());
                        assert(batches@[i as int].columns@[c as int]@.len()
                            == batches@[i as int].num_rows);
                    }
                    let cell = cell_text_at(&batches[i].columns[c], rix);
                    proof {
                        assert(batches@[i as int].columns@[c as int]@ == batch_cols(
                            &batches@[i as int],
                        )[c as int]);
                    }
                    row.push(cell);
                }
                rows.push(row);
                proof {
                    assert(deep_fields(rows@.last()@) =~= batch_text_row(
                        &batches@[i as int],
                        rix as int,
                    ));
                    assert(batch_text_rows(&batches@[i as int]).take(rix as int + 1)
                        =~= batch_text_rows(&batches@[i as int]).take(rix as int).push(
                        batch_text_row(&batches@[i as int], rix as int),
                    ));
                    assert(deep_rows(rows@) =~= deep_rows(rows@.drop_last()).push(
                        deep_fields(rows@.last()@),
                    ));
                    assert((batch_base + batch_text_rows(&batches@[i as int]).take(rix as int))
                        .push(batch_text_row(&batches@[i as int], rix as int)) =~= batch_base
                        + batch_text_rows(&batches@[i as int]).take(rix as int).push(
                        batch_text_row(&batches@[i as int], rix as int),
                    ));
                    assert(deep_rows(rows@) =~= batch_base + batch_text_rows(
                        &batches@[i as int],
                    ).take(rix as int + 1));
                }
            }
            proof {
                assert(batch_text_rows(&batches@[i as int]).take(nr as int) =~= batch_text_rows(
                    &batches@[i as int],
                ));
                assert(batches@.take(i as int + 1).drop_last() =~= batches@.take(i as int));
                assert(batches@.take(i as int + 1).last() == batches@[i as int]);
                assert(flat_text_rows(batches@.take(i as int + 1)) == flat_text_rows(
                    batches@.take(i as int),
                ) + batch_text_rows(&batches@[i as int]));
                assert(deep_rows(rows@) =~= base + flat_text_rows(batches@.take(i as int + 1)));
            }
        }
        proof {
            assert(batches@.take(nb as int) =~= batches@);
            assert(deep_rows(rows@) =~= csv_output_rows(batches@, self.has_header));
        }
        let out = encode_rows(&rows, self.delimiter, self.quote);
        Ok(out)
    }
}

/// The cells of a batch, row by row.
pub open spec fn batch_row_cells(b: &RecordBatch) -> Seq<Seq<CellModel>> {
    Seq::new(b.num_rows as nat, |r: int| Seq::new(b.schema@.len(), |c: int| batch_cols(b)[c][r]))
}

/// The round trip: a batch whose cells survive the text round trip
/// encodes to text that decodes, under the same schema and settings,
/// to exactly the batch's cells. The encoded text here is what
/// `write_batches` promises to produce for this batch, and the parse
/// and typing facts are the ones `read_batches` promises to decode by,
/// so the law connects the two codec directions end to end.
pub proof fn lemma_csv_round_trip(b: &RecordBatch, has_header: bool, d: u8, q: u8)
    requires
        b.wf(),
        csv_cfg_wf(d, q),
        b.schema@.len() >= 1,
        forall|c: int, r: int|
            0 <= c < b.schema@.len() && 0 <= r < b.num_rows ==> cell_round_trips(
                #[trigger] batch_cols(b)[c][r],
                b.schema@[c].data_type,
            ),
    ensures
        ({
            let text = enc_rows(csv_output_rows(seq![*b], has_header), d, q);
            &&& parse_rows(text, 0, d, q) is Some
            &&& rows_typed(data_rows(parse_rows(text, 0, d, q)->0, has_header), b.schema@) is Some
            &&& rows_typed(data_rows(parse_rows(text, 0, d, q)->0, has_header), b.schema@)->0
                == batch_row_cells(b)
        }),
{
    let rows = csv_output_rows(seq![*b], has_header);
    let btr = batch_text_rows(b);
    assert(seq![*b].drop_last() =~= Seq::<RecordBatch>::empty());
    assert(flat_text_rows(seq![*b]) =~= btr) by {
        assert(flat_text_rows(Seq::<RecordBatch>::empty()) == Seq::<Seq<Seq<u8>>>::empty());
        assert(batch_text_rows(&seq![*b].last()) =~= btr);
    }
    assert(forall|r: int| 0 <= r < rows.len() ==> (#[trigger] rows[r]).len() >= 1) by {
        if has_header {
            assert(rows[0].len() == b.schema@.len());
            assert(forall|r: int| 1 <= r < rows.len() ==> (#[trigger] rows[r]) == btr[r - 1]);
        } else {
            assert(forall|r: int| 0 <= r < rows.len() ==> (#[trigger] rows[r]) == btr[r]);
        }
    }
    lemma_csv_text_round_trip(rows, d, q);
    let text = enc_rows(rows, d, q);
    assert(parse_rows(text, 0, d, q) == Some(rows));
    let drows = data_rows(rows, has_header);
    assert(drows =~= btr) by {
        if has_header {
            assert(rows =~= seq![header_row_of(b.schema@)] + btr);
            assert(rows.len() == btr.len() + 1);
            assert(forall|r: int| 0 <= r < btr.len() ==> rows.drop_first()[r] == #[trigger] btr[r]);
        }
    }
    assert forall|r: int| 0 <= r < btr.len() implies row_typed(#[trigger] btr[r], b.schema@)
        is Some by {
        assert(btr[r].len() == b.schema@.len());
        assert forall|c: int| 0 <= c < btr[r].len() implies cell_of_text(
            #[trigger] btr[r][c],
            b.schema@[c].data_type,
        ) is Some by {
            assert(btr[r][c] == cell_text(batch_cols(b)[c][r]));
            lemma_cell_round_trip(batch_cols(b)[c][r], b.schema@[c].data_type);
        }
    }
    assert(rows_typed(btr, b.schema@) is Some);
    let cells = rows_typed(btr, b.schema@)->0;
    assert(cells =~= batch_row_cells(b)) by {
        assert forall|r: int| 0 <= r < cells.len() implies #[trigger] cells[r] == batch_row_cells(
            b,
        )[r] by {
            assert(cells[r] == row_typed(btr[r], b.schema@)->0);
            assert(row_typed(btr[r], b.schema@)->0 =~= batch_row_cells(b)[r]) by {
                assert forall|c: int|
                    0 <= c < b.schema@.len() implies row_typed(btr[r], b.schema@)->0[c]
                    == batch_row_cells(b)[r][c] by {
                    assert(btr[r][c] == cell_text(batch_cols(b)[c][r]));
                    lemma_cell_round_trip(batch_cols(b)[c][r], b.schema@[c].data_type);
                    assert(row_typed(btr[r], b.schema@)->0[c] == cell_of_text(
                        btr[r][c],
                        b.schema@[c].data_type,
                    )->0);
                }
            }
        }
    }
}


/// The cells of a run of batches, row by row in stream order.
pub open spec fn flat_rows(bs: Seq<RecordBatch>) -> Seq<Seq<CellModel>>
    decreases bs.len(),
{
    if bs.len() == 0 {
        Seq::empty()
    } else {
        flat_rows(bs.drop_last()) + batch_row_cells(&bs.last())
    }
}

proof fn lemma_flat_round_trip(bs: Seq<RecordBatch>, schema: Seq<FieldModel>)
    requires
        forall|k: int|
            0 <= k < bs.len() ==> (#[trigger] bs[k]).wf() && bs[k].schema@ == schema,
        forall|k: int, c: int, r: int|
            0 <= k < bs.len() && 0 <= c < schema.len() && 0 <= r < bs[k].num_rows
                ==> cell_round_trips(
                #[trigger] batch_cols(&bs[k])[c][r],
                schema[c].data_type,
            ),
    ensures
        flat_text_rows(bs).len() == flat_rows(bs).len(),
        forall|r: int|
            0 <= r < flat_text_rows(bs).len() ==> (#[trigger] flat_text_rows(bs)[r]).len()
                == schema.len() && row_typed(flat_text_rows(bs)[r], schema) == Some(
                flat_rows(bs)[r],
            ),
    decreases bs.len(),
{
    if bs.len() > 0 {
        let front = bs.drop_last();
        let b = bs.last();
        assert(forall|k: int|
            0 <= k < front.len() ==> #[trigger] front[k] == bs[k]);
        lemma_flat_round_trip(front, schema);
        let btr = batch_text_rows(&b);
        assert forall|j: int| 0 <= j < btr.len() implies (#[trigger] btr[j]).len()
            == schema.len() && row_typed(btr[j], schema) == Some(batch_row_cells(&b)[j]) by {
            assert(btr[j] == batch_text_row(&b, j));
            assert forall|c: int| 0 <= c < schema.len() implies cell_of_text(
                #[trigger] btr[j][c],
                schema[c].data_type,
            ) is Some && cell_of_text(btr[j][c], schema[c].data_type)->0 == batch_row_cells(
                &b,
            )[j][c] by {
                assert(btr[j][c] == cell_text(batch_cols(&b)[c][j]));
                assert(cell_round_trips(batch_cols(&b)[c][j], schema[c].data_type));
                lemma_cell_round_trip(batch_cols(&b)[c][j], schema[c].data_type);
            }
            assert(row_typed(btr[j], schema) is Some);
            assert(row_typed(btr[j], schema)->0 =~= batch_row_cells(&b)[j]);
        }
        assert forall|r: int|
            0 <= r < flat_text_rows(bs).len() implies (#[trigger] flat_text_rows(bs)[r]).len()
            == schema.len() && row_typed(flat_text_rows(bs)[r], schema) == Some(
            flat_rows(bs)[r],
        ) by {
            if r < flat_text_rows(front).len() {
                assert(flat_text_rows(bs)[r] == flat_text_rows(front)[r]);
                assert(flat_rows(bs)[r] == flat_rows(front)[r]);
            } else {
                assert(flat_text_rows(bs)[r] == btr[r - flat_text_rows(front).len()]);
                assert(flat_rows(bs)[r] == batch_row_cells(&b)[r - flat_rows(front).len()]);
            }
        }
    }
}

/// The stream-level round trip: a run of batches with one schema whose
/// cells survive the text form encodes to text that decodes, under the
/// same schema and settings, to exactly the batches' rows in order.
/// The encoded text is what `write_batches` promises for this run, and
/// the parse and typing facts are the ones `read_batches` decodes by.
pub proof fn lemma_csv_stream_round_trip(bs: Seq<RecordBatch>, has_header: bool, d: u8, q: u8)
    requires
        csv_cfg_wf(d, q),
        bs.len() >= 1,
        forall|k: int|
            0 <= k < bs.len() ==> (#[trigger] bs[k]).wf() && bs[k].schema@ == bs[0].schema@,
        bs[0].schema@.len() >= 1,
        forall|k: int, c: int, r: int|
            0 <= k < bs.len() && 0 <= c < bs[0].schema@.len() && 0 <= r < bs[k].num_rows
                ==> cell_round_trips(
                #[trigger] batch_cols(&bs[k])[c][r],
                bs[0].schema@[c].data_type,
            ),
    ensures
        parse_rows(enc_rows(csv_output_rows(bs, has_header), d, q), 0, d, q) == Some(
            csv_output_rows(bs, has_header),
        ),
        rows_typed(data_rows(csv_output_rows(bs, has_header), has_header), bs[0].schema@)
            == Some(flat_rows(bs)),
{
    let schema = bs[0].schema@;
    let rows = csv_output_rows(bs, has_header);
    lemma_flat_round_trip(bs, schema);
    let ftr = flat_text_rows(bs);
    assert(forall|r: int| 0 <= r < rows.len() ==> (#[trigger] rows[r]).len() >= 1) by {
        if has_header {
            assert(rows[0].len() == schema.len());
            assert(forall|r: int| 1 <= r < rows.len() ==> (#[trigger] rows[r]) == ftr[r - 1]);
        } else {
            assert(forall|r: int| 0 <= r < rows.len() ==> (#[trigger] rows[r]) == ftr[r]);
        }
    }
    lemma_csv_text_round_trip(rows, d, q);
    let drows = data_rows(rows, has_header);
    assert(drows =~= ftr) by {
        if has_header {
            assert(rows =~= seq![header_row_of(schema)] + ftr);
            assert(forall|r: int|
                0 <= r < ftr.len() ==> rows.drop_first()[r] == #[trigger] ftr[r]);
        }
    }
    assert(rows_typed(drows, schema) is Some);
    assert(rows_typed(drows, schema)->0 =~= flat_rows(bs)) by {
        assert forall|r: int| 0 <= r < ftr.len() implies rows_typed(drows, schema)->0[r]
            == #[trigger] flat_rows(bs)[r] by {
            assert(rows_typed(drows, schema)->0[r] == row_typed(drows[r], schema)->0);
            assert(row_typed(ftr[r], schema) == Some(flat_rows(bs)[r]));
        }
    }
}

} // verus!
