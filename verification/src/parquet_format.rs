//! The columnar binary codec: schema from the file footer, row-group
//! streaming decode, and buffered encode, over the arrow and parquet
//! crates.
//!
//! The byte-level footer check, every schema and shape validation, and
//! the streaming state machine are verified; the calls into the two
//! crates stand behind trusted wrappers that promise nothing beyond
//! what their sources show, and everything that comes back is
//! re-validated here.

use vstd::prelude::*;

use arrow::array::Array;
use arrow::datatypes::DataType as Adt;
use parquet::basic::Compression;

use crate::batch::CellModel;
use crate::batch::ColumnData;
use crate::batch::RecordBatch;
use crate::bytesutil::bytes_eq;
use crate::config::ParquetConfig;
use crate::error::ConvertError;
use crate::error::ErrorKind;
use crate::schema::DataType;
use crate::schema::Field;
use crate::schema::Schema;

verus! {

/// The supported compression codecs.
#[derive(Clone, Copy, Debug, PartialEq, Eq, Structural)]
pub enum CompressionCodec {
    Uncompressed,
    Snappy,
    Gzip,
    Brotli,
    Lz4,
    Zstd,
}

/// The codec a compression name selects, if any.
pub open spec fn codec_of_name(name: Seq<u8>) -> Option<CompressionCodec> {
    if name == seq![117u8, 110u8, 99u8, 111u8, 109u8, 112u8, 114u8, 101u8, 115u8, 115u8, 101u8, 100u8] {
        Some(CompressionCodec::Uncompressed)
    } else if name == seq![115u8, 110u8, 97u8, 112u8, 112u8, 121u8] {
        Some(CompressionCodec::Snappy)
    } else if name == seq![103u8, 122u8, 105u8, 112u8] {
        Some(CompressionCodec::Gzip)
    } else if name == seq![98u8, 114u8, 111u8, 116u8, 108u8, 105u8] {
        Some(CompressionCodec::Brotli)
    } else if name == seq![108u8, 122u8, 52u8] {
        Some(CompressionCodec::Lz4)
    } else if name == seq![122u8, 115u8, 116u8, 100u8] {
        Some(CompressionCodec::Zstd)
    } else {
        None
    }
}

/// Resolve a compression name.
pub fn parse_compression(name: &Vec<u8>) -> (r: Option<CompressionCodec>)
    ensures
        r == codec_of_name(name@),
{
    let uncompressed: Vec<u8> = vec![117, 110, 99, 111, 109, 112, 114, 101, 115, 115, 101, 100];
    let snappy: Vec<u8> = vec![115, 110, 97, 112, 112, 121];
    let gzip: Vec<u8> = vec![103, 122, 105, 112];
    let brotli: Vec<u8> = vec![98, 114, 111, 116, 108, 105];
    let lz4: Vec<u8> = vec![108, 122, 52];
    let zstd: Vec<u8> = vec![122, 115, 116, 100];
    proof {
        assert(uncompressed@ =~= seq![
            117u8,
            110u8,
            99u8,
            111u8,
            109u8,
            112u8,
            114u8,
            101u8,
            115u8,
            115u8,
            101u8,
            100u8,
        ]);
        assert(snappy@ =~= seq![115u8, 110u8, 97u8, 112u8, 112u8, 121u8]);
        assert(gzip@ =~= seq![103u8, 122u8, 105u8, 112u8]);
        assert(brotli@ =~= seq![98u8, 114u8, 111u8, 116u8, 108u8, 105u8]);
        assert(lz4@ =~= seq![108u8, 122u8, 52u8]);
        assert(zstd@ =~= seq![122u8, 115u8, 116u8, 100u8]);
    }
    if bytes_eq(name, &uncompressed) {
        Some(CompressionCodec::Uncompressed)
    } else if bytes_eq(name, &snappy) {
        Some(CompressionCodec::Snappy)
    } else if bytes_eq(name, &gzip) {
        Some(CompressionCodec::Gzip)
    } else if bytes_eq(name, &brotli) {
        Some(CompressionCodec::Brotli)
    } else if bytes_eq(name, &lz4) {
        Some(CompressionCodec::Lz4)
    } else if bytes_eq(name, &zstd) {
        Some(CompressionCodec::Zstd)
    } else {
        None
    }
}

/// The value of four little-endian bytes.
pub open spec fn le32(b0: u8, b1: u8, b2: u8, b3: u8) -> int {
    b0 + b1 * 0x100 + b2 * 0x10000 + b3 * 0x1000000
}

/// Does the buffer hold a complete columnar binary file tail: both
/// magic markers present and the whole footer inside the buffer?
pub open spec fn footer_complete(d: Seq<u8>) -> bool {
    &&& d.len() >= 12
    &&& d[0] == 80 && d[1] == 65 && d[2] == 82 && d[3] == 49
    &&& d[d.len() - 4] == 80 && d[d.len() - 3] == 65 && d[d.len() - 2] == 82 && d[d.len() - 1]
        == 49
    &&& le32(d[d.len() - 8], d[d.len() - 7], d[d.len() - 6], d[d.len() - 5]) + 12 <= d.len()
}

/// Check that the buffer ends in a complete footer; until then the
/// decoder needs more data.
pub fn footer_check(data: &Vec<u8>) -> (r: bool)
    ensures
        r == footer_complete(data@),
{
    let n: usize = data.len();
    if n < 12 {
        return false;
    }
    if !(data[0] == 80 && data[1] == 65 && data[2] == 82 && data[3] == 49) {
        return false;
    }
    if !(data[n - 4] == 80 && data[n - 3] == 65 && data[n - 2] == 82 && data[n - 1] == 49) {
        return false;
    }
    let b0: u64 = data[n - 8] as u64;
    let b1: u64 = data[n - 7] as u64;
    let b2: u64 = data[n - 6] as u64;
    let b3: u64 = data[n - 5] as u64;
    let footer_len: u64 = b0 + b1 * 0x100 + b2 * 0x10000 + b3 * 0x1000000;
    footer_len + 12 <= n as u64
}

} // verus!

verus! {

/// An arrow schema, held opaquely: its field list is read back only
/// through the trusted accessors, and everything they return is
/// validated here.
#[verifier::external_body]
pub struct ArrowSchemaHandle {
    inner: arrow::datatypes::Schema,
}

/// An arrow field, held opaquely.
#[verifier::external_body]
pub struct ArrowFieldHandle {
    inner: arrow::datatypes::Field,
}

/// A decoded arrow batch, held opaquely; its columns are read back
/// only through the typed extractors and re-validated.
#[verifier::external_body]
pub struct ArrowBatchHandle {
    inner: arrow::array::RecordBatch,
}

/// An arrow column: a reference-counted array of one of the supported
/// types, held opaquely.
#[verifier::external_body]
pub struct ArrayHandle {
    inner: arrow::array::ArrayRef,
}

// ---------------------------------------------------------------
// What the opaque arrow values hold, and what a file's bytes store.
//
// Cells and fields cross this boundary in a plain form: a cell is
// (type tag, integer value, text, boolean value) with tag 0 for null,
// and a field is (name, type tag, nullability). The names below are
// uninterpreted: the trusted wrappers state their results through
// them, and the verified code re-validates everything it uses.
// ---------------------------------------------------------------

/// The tag a library type carries in the plain cell encoding.
pub open spec fn tag_of_type(dt: DataType) -> int {
    match dt {
        DataType::Int64 => 1,
        DataType::Float64 => 2,
        DataType::Utf8 => 3,
        DataType::Boolean => 4,
        DataType::Timestamp => 5,
    }
}

/// Is a tag one of the library's five types?
pub open spec fn supported_tag(t: int) -> bool {
    1 <= t <= 5
}

/// A cell in plain form.
pub open spec fn plain_of_cell(c: CellModel) -> (int, int, Seq<u8>, bool) {
    match c {
        CellModel::Null => (0int, 0int, Seq::empty(), false),
        CellModel::IntCell(v) => (1int, v, Seq::empty(), false),
        CellModel::FloatCell(t) => (2int, 0int, t, false),
        CellModel::StrCell(t) => (3int, 0int, t, false),
        CellModel::BoolCell(b) => (4int, 0int, Seq::empty(), b),
        CellModel::TsCell(v) => (5int, v, Seq::empty(), false),
    }
}

/// A column of cells in plain form.
pub open spec fn plain_col(cells: Seq<CellModel>) -> Seq<(int, int, Seq<u8>, bool)> {
    cells.map_values(|c: CellModel| plain_of_cell(c))
}

/// A field in plain form.
pub open spec fn plain_of_field(f: crate::schema::FieldModel) -> (Seq<u8>, int, bool) {
    (f.name, tag_of_type(f.data_type), f.nullable)
}

/// A schema in plain form.
pub open spec fn plain_fields(s: Seq<crate::schema::FieldModel>) -> Seq<(Seq<u8>, int, bool)> {
    s.map_values(|f: crate::schema::FieldModel| plain_of_field(f))
}

/// Does a stored field list fit a library schema: same width, types
/// matching column for column?
pub open spec fn fields_compatible(
    schema: Seq<crate::schema::FieldModel>,
    sf: Seq<(Seq<u8>, int, bool)>,
) -> bool {
    &&& sf.len() == schema.len()
    &&& forall|c: int|
        0 <= c < sf.len() ==> (#[trigger] sf[c]).1 == tag_of_type(schema[c].data_type)
}

// The fields an arrow schema holds.
pub uninterp spec fn sh_fields(s: &ArrowSchemaHandle) -> Seq<(Seq<u8>, int, bool)>;

// The shape and contents of a decoded arrow batch: column count, row
// count, the type tag of each column, and each column's plain cells.
pub uninterp spec fn ab_width(b: &ArrowBatchHandle) -> int;

pub uninterp spec fn ab_height(b: &ArrowBatchHandle) -> int;

pub uninterp spec fn ab_col_tag(b: &ArrowBatchHandle, c: int) -> int;

pub uninterp spec fn ab_col(b: &ArrowBatchHandle, c: int) -> Seq<(int, int, Seq<u8>, bool)>;

// What a file's bytes store: the footer schema, the column contents,
// the row-group count, and one row group's column contents; none when
// the respective decode of those bytes fails.
pub uninterp spec fn pq_stored_fields(data: Seq<u8>) -> Option<Seq<(Seq<u8>, int, bool)>>;

pub uninterp spec fn pq_cols(data: Seq<u8>) -> Option<Seq<Seq<(int, int, Seq<u8>, bool)>>>;

pub uninterp spec fn pq_group_count(data: Seq<u8>) -> Option<int>;

pub uninterp spec fn pq_group_cols(data: Seq<u8>, group: int) -> Option<
    Seq<Seq<(int, int, Seq<u8>, bool)>>,
>;

/// The plain cells of column `c` across a run of decoded batches.
pub open spec fn cat_col(bs: Seq<ArrowBatchHandle>, c: int) -> Seq<(int, int, Seq<u8>, bool)>
    decreases bs.len(),
{
    if bs.len() == 0 {
        Seq::empty()
    } else {
        cat_col(bs.drop_last(), c) + ab_col(&bs.last(), c)
    }
}

/// The plain cells of column `c` across a run of library batches.
pub open spec fn cat_batch_col(bs: Seq<RecordBatch>, c: int) -> Seq<(int, int, Seq<u8>, bool)>
    decreases bs.len(),
{
    if bs.len() == 0 {
        Seq::empty()
    } else {
        cat_batch_col(bs.drop_last(), c) + plain_col(crate::batch::batch_cols(&bs.last())[c])
    }
}

/// The batch-size bound the readers are configured with.
pub open spec fn clamped(batch_size: int) -> int {
    if batch_size == 0 {
        1
    } else {
        batch_size
    }
}

/// Relies on arrow's Field::new: builds a field with the given name,
/// the arrow type corresponding to the library type, and the
/// nullability flag.
#[verifier::external_body]
fn arrow_field_from(name: &Vec<u8>, dt: DataType, nullable: bool) -> ArrowFieldHandle {
    let dtype = match dt {
        DataType::Int64 => Adt::Int64,
        DataType::Float64 => Adt::Float64,
        DataType::Utf8 => Adt::Utf8,
        DataType::Boolean => Adt::Boolean,
        DataType::Timestamp => Adt::Timestamp(arrow::datatypes::TimeUnit::Microsecond, None),
    };
    let text = String::from_utf8_lossy(name).into_owned();
    ArrowFieldHandle { inner: arrow::datatypes::Field::new(text, dtype, nullable) }
}

/// Relies on arrow's Schema::new over the given fields.
#[verifier::external_body]
fn arrow_schema_from(fields: Vec<ArrowFieldHandle>) -> ArrowSchemaHandle {
    ArrowSchemaHandle {
        inner: arrow::datatypes::Schema::new(
            fields.into_iter().map(|f| f.inner).collect::<Vec<_>>(),
        ),
    }
}

/// Relies on arrow's Int64Array::from over the option values.
#[verifier::external_body]
fn col_int64(v: &Vec<Option<i64>>) -> ArrayHandle {
    ArrayHandle { inner: std::sync::Arc::new(arrow::array::Int64Array::from(v.clone())) }
}

/// Relies on arrow's TimestampMicrosecondArray::from over the values.
#[verifier::external_body]
fn col_timestamp(v: &Vec<Option<i64>>) -> ArrayHandle {
    ArrayHandle {
        inner: std::sync::Arc::new(arrow::array::TimestampMicrosecondArray::from(v.clone())),
    }
}

/// Relies on arrow's BooleanArray::from over the option values.
#[verifier::external_body]
fn col_bool(v: &Vec<Option<bool>>) -> ArrayHandle {
    ArrayHandle { inner: std::sync::Arc::new(arrow::array::BooleanArray::from(v.clone())) }
}

/// Relies on arrow's StringArray built from the UTF-8 text values;
/// a value that is not UTF-8 becomes null.
#[verifier::external_body]
fn col_utf8(v: &Vec<Option<Vec<u8>>>) -> ArrayHandle {
    ArrayHandle {
        inner: std::sync::Arc::new(
            arrow::array::StringArray::from_iter(
                v.iter().map(|o| o.as_ref().and_then(|b| std::str::from_utf8(b).ok())),
            ),
        ),
    }
}

/// Relies on arrow's Float64Array built from decimal text via the
/// standard float parser; text outside the float grammar becomes null.
#[verifier::external_body]
fn col_float_from_text(v: &Vec<Option<Vec<u8>>>) -> ArrayHandle {
    ArrayHandle {
        inner: std::sync::Arc::new(
            arrow::array::Float64Array::from_iter(
                v.iter().map(
                    |o|
                        o.as_ref().and_then(|b| std::str::from_utf8(b).ok()).and_then(
                            |s| s.parse().ok(),
                        ),
                ),
            ),
        ),
    }
}

/// Relies on arrow's RecordBatch::try_new over the schema and columns.
#[verifier::external_body]
fn arrow_batch_from(schema: &ArrowSchemaHandle, cols: Vec<ArrayHandle>) -> (r: Result<
    ArrowBatchHandle,
    ConvertError,
>)
    ensures
        r matches Err(e) ==> e.kind == ErrorKind::Encode,
{
    arrow::array::RecordBatch::try_new(
        std::sync::Arc::new(schema.inner.clone()),
        cols.into_iter().map(|c| c.inner).collect(),
    ).map(|b| ArrowBatchHandle { inner: b }).map_err(
        |e| ConvertError::text(ErrorKind::Encode, &e.to_string()),
    )
}

/// Writer properties, held opaquely.
#[verifier::external_body]
pub struct PropsHandle {
    inner: parquet::file::properties::WriterProperties,
}

/// An open file writer over an in-memory buffer, held opaquely.
#[verifier::external_body]
pub struct ParquetWriterHandle {
    inner: parquet::arrow::ArrowWriter<Vec<u8>>,
}

/// Relies on parquet's WriterProperties builder: compression, row-group
/// row count, page sizes and write batch size as given; the row-group
/// and write-batch counts are clamped to at least one because the
/// builder panics on zero.
#[verifier::external_body]
fn writer_props_for(
    codec: CompressionCodec,
    row_group_size: usize,
    page_size: usize,
    dictionary_page_size: usize,
    batch_size: usize,
) -> PropsHandle {
    let compression = match codec {
        CompressionCodec::Uncompressed => Compression::UNCOMPRESSED,
        CompressionCodec::Snappy => Compression::SNAPPY,
        CompressionCodec::Gzip => Compression::GZIP(Default::default()),
        CompressionCodec::Brotli => Compression::BROTLI(Default::default()),
        CompressionCodec::Lz4 => Compression::LZ4,
        CompressionCodec::Zstd => Compression::ZSTD(Default::default()),
    };
    let builder = parquet::file::properties::WriterProperties::builder().set_compression(
        compression,
    ).set_max_row_group_row_count(Some(row_group_size.max(1))).set_data_page_size_limit(page_size);
    PropsHandle { inner: builder.set_dictionary_page_size_limit(dictionary_page_size).set_write_batch_size(batch_size.max(1)).build() }
}

/// Relies on parquet's ArrowWriter::try_new over a fresh buffer.
#[verifier::external_body]
fn parquet_writer_new(schema: &ArrowSchemaHandle, props: PropsHandle) -> (r: Result<
    ParquetWriterHandle,
    ConvertError,
>)
    ensures
        r matches Err(e) ==> e.kind == ErrorKind::Encode,
{
    let schema_ref = std::sync::Arc::new(schema.inner.clone());
    parquet::arrow::ArrowWriter::try_new(Vec::new(), schema_ref, Some(props.inner)).map(
        |w| ParquetWriterHandle { inner: w },
    ).map_err(|e| ConvertError::text(ErrorKind::Encode, &e.to_string()))
}

/// Relies on parquet's ArrowWriter::write: buffers the batch into the
/// current row group.
#[verifier::external_body]
fn parquet_writer_write(w: &mut ParquetWriterHandle, batch: &ArrowBatchHandle) -> (r: Result<
    (),
    ConvertError,
>)
    ensures
        r matches Err(e) ==> e.kind == ErrorKind::Encode,
{
    w.inner.write(&batch.inner).map_err(|e| ConvertError::text(ErrorKind::Encode, &e.to_string()))
}

/// Relies on parquet's ArrowWriter::into_inner: flushes the open row
/// group, writes the footer, and hands back the complete file buffer,
/// which opens with the magic marker and closes with the footer, its
/// length and the magic marker again.
#[verifier::external_body]
fn parquet_writer_finish(w: ParquetWriterHandle) -> (r: Result<Vec<u8>, ConvertError>)
    ensures
        r matches Ok(v) ==> footer_complete(v@),
        r matches Err(e) ==> e.kind == ErrorKind::Encode,
{
    w.inner.into_inner().map_err(|e| ConvertError::text(ErrorKind::Encode, &e.to_string()))
}

/// Relies on parquet's ParquetRecordBatchReaderBuilder over an
/// in-memory buffer: it succeeds exactly when the whole file decodes,
/// yielding batches of at most the requested size whose columns carry
/// the stored schema's types and concatenate to the file's contents.
#[verifier::external_body]
fn parquet_read_all(data: &Vec<u8>, batch_size: usize) -> (r: Result<
    Vec<ArrowBatchHandle>,
    ConvertError,
>)
    ensures
        r is Ok <==> pq_cols(data@) is Some,
        r matches Ok(bs) ==> {
            &&& pq_stored_fields(data@) matches Some(sf)
            &&& pq_cols(data@) matches Some(cols)
            &&& cols.len() == sf.len()
            &&& forall|c: int| 0 <= c < sf.len() ==> #[trigger] cat_col(bs@, c) == cols[c]
            &&& forall|k: int|
                0 <= k < bs@.len() ==> {
                    &&& ab_width(&(#[trigger] bs@[k])) == sf.len()
                    &&& ab_height(&bs@[k]) <= clamped(batch_size as int)
                    &&& forall|c: int|
                        0 <= c < sf.len() ==> #[trigger] ab_col_tag(&bs@[k], c) == sf[c].1
                    &&& forall|c: int|
                        0 <= c < sf.len() ==> (#[trigger] ab_col(&bs@[k], c)).len() == ab_height(
                            &bs@[k],
                        )
                }
        },
        r matches Err(e) ==> e.kind == ErrorKind::Decode,
{
    let builder = parquet::arrow::arrow_reader::ParquetRecordBatchReaderBuilder::try_new(
        bytes::Bytes::from(data.clone()),
    ).map_err(|e| ConvertError::text(ErrorKind::Decode, &e.to_string()))?;
    let reader = builder.with_batch_size(batch_size.max(1)).build().map_err(|e| ConvertError::text(ErrorKind::Decode, &e.to_string()))?;
    reader.collect::<Result<Vec<_>, _>>().map(
        |v| v.into_iter().map(|b| ArrowBatchHandle { inner: b }).collect(),
    ).map_err(|e| ConvertError::text(ErrorKind::Decode, &e.to_string()))
}

/// Relies on the same reader builder restricted to one row group; an
/// out-of-range group index would make the metadata access panic, so
/// it is rejected here with the decode error. It succeeds exactly when
/// the metadata parses, the group exists, and that group decodes.
#[verifier::external_body]
fn parquet_read_row_group(data: &Vec<u8>, group: usize, batch_size: usize) -> (r: Result<
    Vec<ArrowBatchHandle>,
    ConvertError,
>)
    ensures
        r is Ok <==> (pq_group_count(data@) matches Some(gc) && (group as int) < gc
            && pq_group_cols(data@, group as int) is Some),
        r matches Ok(bs) ==> {
            &&& pq_stored_fields(data@) matches Some(sf)
            &&& pq_group_cols(data@, group as int) matches Some(cols)
            &&& cols.len() == sf.len()
            &&& forall|c: int| 0 <= c < sf.len() ==> #[trigger] cat_col(bs@, c) == cols[c]
            &&& forall|k: int|
                0 <= k < bs@.len() ==> {
                    &&& ab_width(&(#[trigger] bs@[k])) == sf.len()
                    &&& ab_height(&bs@[k]) <= clamped(batch_size as int)
                    &&& forall|c: int|
                        0 <= c < sf.len() ==> #[trigger] ab_col_tag(&bs@[k], c) == sf[c].1
                    &&& forall|c: int|
                        0 <= c < sf.len() ==> (#[trigger] ab_col(&bs@[k], c)).len() == ab_height(
                            &bs@[k],
                        )
                }
        },
        r matches Err(e) ==> e.kind == ErrorKind::Decode,
{
    let builder = parquet::arrow::arrow_reader::ParquetRecordBatchReaderBuilder::try_new(
        bytes::Bytes::from(data.clone()),
    ).map_err(|e| ConvertError::text(ErrorKind::Decode, &e.to_string()))?;
    if group >= builder.metadata().num_row_groups() {
        return Err(ConvertError::text(ErrorKind::Decode, "row group index out of range"));
    }
    let reader = builder.with_batch_size(batch_size.max(1)).with_row_groups(vec![group]).build()
        .map_err(|e| ConvertError::text(ErrorKind::Decode, &e.to_string()))?;
    reader.collect::<Result<Vec<_>, _>>().map(
        |v| v.into_iter().map(|b| ArrowBatchHandle { inner: b }).collect(),
    ).map_err(|e| ConvertError::text(ErrorKind::Decode, &e.to_string()))
}

/// Relies on the reader builder's metadata for the row-group count; it
/// succeeds exactly when the metadata parses.
#[verifier::external_body]
fn parquet_num_row_groups(data: &Vec<u8>) -> (r: Result<usize, ConvertError>)
    ensures
        r is Ok <==> pq_group_count(data@) is Some,
        r matches Ok(n) ==> pq_group_count(data@) == Some(n as int),
        r matches Err(e) ==> e.kind == ErrorKind::Decode,
{
    let builder = parquet::arrow::arrow_reader::ParquetRecordBatchReaderBuilder::try_new(
        bytes::Bytes::from(data.clone()),
    ).map_err(|e| ConvertError::text(ErrorKind::Decode, &e.to_string()))?;
    Ok(builder.metadata().num_row_groups())
}

/// Relies on the reader builder's restored arrow schema: it succeeds
/// exactly when the footer metadata parses, and hands back the fields
/// the footer stores.
#[verifier::external_body]
fn parquet_arrow_schema(data: &Vec<u8>) -> (r: Result<ArrowSchemaHandle, ConvertError>)
    ensures
        r is Ok <==> pq_stored_fields(data@) is Some,
        r matches Ok(h) ==> pq_stored_fields(data@) == Some(sh_fields(&h)),
        r matches Err(e) ==> e.kind == ErrorKind::Decode,
{
    let builder = parquet::arrow::arrow_reader::ParquetRecordBatchReaderBuilder::try_new(
        bytes::Bytes::from(data.clone()),
    ).map_err(|e| ConvertError::text(ErrorKind::Decode, &e.to_string()))?;
    Ok(ArrowSchemaHandle { inner: builder.schema().as_ref().clone() })
}

/// Relies on arrow's Schema::fields for the field count.
#[verifier::external_body]
fn arrow_schema_len(s: &ArrowSchemaHandle) -> (r: usize)
    ensures
        r == sh_fields(s).len(),
{
    s.inner.fields().len()
}

/// Relies on arrow's Field accessors: the name bytes, the library type
/// the arrow type corresponds to (none for an unsupported type; only
/// microsecond timestamps map, matching the column extractor), and the
/// nullability flag; none when the index is out of range.
#[verifier::external_body]
fn arrow_schema_field(s: &ArrowSchemaHandle, i: usize) -> (r: Option<
    (Vec<u8>, Option<DataType>, bool),
>)
    ensures
        r is Some <==> (i as int) < sh_fields(s).len(),
        r matches Some(t) ==> {
            &&& t.0@ == sh_fields(s)[i as int].0
            &&& t.2 == sh_fields(s)[i as int].2
            &&& match t.1 {
                Some(dt) => tag_of_type(dt) == sh_fields(s)[i as int].1,
                None => !supported_tag(sh_fields(s)[i as int].1),
            }
        },
{
    if i >= s.inner.fields().len() {
        return None;
    }
    let f = s.inner.field(i);
    let dt = match f.data_type() {
        Adt::Int64 => Some(DataType::Int64),
        Adt::Float64 => Some(DataType::Float64),
        Adt::Utf8 => Some(DataType::Utf8),
        Adt::Boolean => Some(DataType::Boolean),
        Adt::Timestamp(arrow::datatypes::TimeUnit::Microsecond, _) => Some(DataType::Timestamp),
        _ => None,
    };
    Some((f.name().clone().into_bytes(), dt, f.is_nullable()))
}

/// Relies on arrow's RecordBatch::num_rows.
#[verifier::external_body]
fn arrow_batch_rows(b: &ArrowBatchHandle) -> (r: usize)
    ensures
        r == ab_height(b),
{
    b.inner.num_rows()
}

/// Relies on arrow's RecordBatch::num_columns.
#[verifier::external_body]
fn arrow_batch_cols(b: &ArrowBatchHandle) -> (r: usize)
    ensures
        r == ab_width(b),
{
    b.inner.num_columns()
}

/// Relies on the downcast to Int64Array; none exactly when the column
/// is missing or of another type.
#[verifier::external_body]
fn batch_col_i64(b: &ArrowBatchHandle, i: usize) -> (r: Option<Vec<Option<i64>>>)
    ensures
        r is Some <==> ((i as int) < ab_width(b) && ab_col_tag(b, i as int) == 1),
        r matches Some(v) ==> plain_col(crate::batch::int_cells(v@)) == ab_col(b, i as int)
            && v@.len() == ab_height(b),
{
    b.inner.columns().get(i).and_then(
        |a| a.as_any().downcast_ref::<arrow::array::Int64Array>(),
    ).map(|a| a.iter().collect())
}

/// Relies on the downcast to TimestampMicrosecondArray; none exactly
/// when the column is missing or of another type or unit.
#[verifier::external_body]
fn batch_col_ts(b: &ArrowBatchHandle, i: usize) -> (r: Option<Vec<Option<i64>>>)
    ensures
        r is Some <==> ((i as int) < ab_width(b) && ab_col_tag(b, i as int) == 5),
        r matches Some(v) ==> plain_col(crate::batch::ts_cells(v@)) == ab_col(b, i as int)
            && v@.len() == ab_height(b),
{
    b.inner.columns().get(i).and_then(
        |a| a.as_any().downcast_ref::<arrow::array::TimestampMicrosecondArray>(),
    ).map(|a| a.iter().collect())
}

/// Relies on the downcast to BooleanArray; none exactly when the
/// column is missing or of another type.
#[verifier::external_body]
fn batch_col_bool(b: &ArrowBatchHandle, i: usize) -> (r: Option<Vec<Option<bool>>>)
    ensures
        r is Some <==> ((i as int) < ab_width(b) && ab_col_tag(b, i as int) == 4),
        r matches Some(v) ==> plain_col(crate::batch::bool_cells(v@)) == ab_col(b, i as int)
            && v@.len() == ab_height(b),
{
    b.inner.columns().get(i).and_then(
        |a| a.as_any().downcast_ref::<arrow::array::BooleanArray>(),
    ).map(|a| a.iter().collect())
}

/// Relies on the downcast to StringArray; values come back as bytes,
/// none exactly when the column is missing or of another type.
#[verifier::external_body]
fn batch_col_utf8(b: &ArrowBatchHandle, i: usize) -> (r: Option<Vec<Option<Vec<u8>>>>)
    ensures
        r is Some <==> ((i as int) < ab_width(b) && ab_col_tag(b, i as int) == 3),
        r matches Some(v) ==> plain_col(crate::batch::str_cells(v@)) == ab_col(b, i as int)
            && v@.len() == ab_height(b),
{
    b.inner.columns().get(i).and_then(
        |a| a.as_any().downcast_ref::<arrow::array::StringArray>(),
    ).map(|a| a.iter().map(|o| o.map(|s| s.as_bytes().to_vec())).collect())
}

/// Relies on the downcast to Float64Array; values come back as the
/// shortest decimal text that reads back to the same float, with a
/// decimal point kept on whole numbers; none exactly when the column
/// is missing or of another type.
#[verifier::external_body]
fn batch_col_f64_text(b: &ArrowBatchHandle, i: usize) -> (r: Option<Vec<Option<Vec<u8>>>>)
    ensures
        r is Some <==> ((i as int) < ab_width(b) && ab_col_tag(b, i as int) == 2),
        r matches Some(v) ==> plain_col(crate::batch::float_cells(v@)) == ab_col(b, i as int)
            && v@.len() == ab_height(b),
{
    b.inner.columns().get(i).and_then(
        |a| a.as_any().downcast_ref::<arrow::array::Float64Array>(),
    ).map(|a| a.iter().map(|o| o.map(|x| format!("{:?}", x).into_bytes())).collect())
}

} // verus!

verus! {

/// Convert a library schema to an arrow schema.
fn schema_to_arrow(schema: &Schema) -> ArrowSchemaHandle {
    let mut fields: Vec<ArrowFieldHandle> = Vec::new();
    let n: usize = schema.fields.len();
    for i in 0..n
        invariant
            n == schema.fields@.len(),
    {
        let f = &schema.fields[i];
        fields.push(arrow_field_from(&f.name, f.data_type, f.nullable));
    }
    arrow_schema_from(fields)
}

/// Convert one library batch to an arrow batch.
fn batch_to_arrow(b: &RecordBatch, schema: &ArrowSchemaHandle) -> (r: Result<
    ArrowBatchHandle,
    ConvertError,
>)
    ensures
        r matches Err(e) ==> e.kind == ErrorKind::Encode,
{
    let mut cols: Vec<ArrayHandle> = Vec::new();
    let n: usize = b.columns.len();
    for i in 0..n
        invariant
            n == b.columns@.len(),
    {
        let handle = match &b.columns[i] {
            ColumnData::Int64(v) => col_int64(v),
            ColumnData::Timestamp(v) => col_timestamp(v),
            ColumnData::Boolean(v) => col_bool(v),
            ColumnData::Utf8(v) => col_utf8(v),
            ColumnData::Float64(v) => col_float_from_text(v),
        };
        cols.push(handle);
    }
    arrow_batch_from(schema, cols)
}

/// Convert and validate one decoded arrow batch against the schema:
/// it succeeds exactly when the batch has one column per field with
/// the field's type, and then carries exactly the decoded cells.
/// Every shape or type mismatch aborts with a schema error.
fn batch_from_arrow(ab: &ArrowBatchHandle, schema: &Schema) -> (r: Result<
    RecordBatch,
    ConvertError,
>)
    ensures
        r is Ok <==> (ab_width(ab) == schema@.len() && forall|c: int|
            0 <= c < schema@.len() ==> ab_col_tag(ab, c) == tag_of_type(
                (#[trigger] schema@[c]).data_type,
            )),
        r matches Ok(b) ==> {
            &&& b.wf()
            &&& b.schema@ == schema@
            &&& b.num_rows == ab_height(ab)
            &&& forall|c: int|
                0 <= c < schema@.len() ==> plain_col(
                    #[trigger] crate::batch::batch_cols(&b)[c],
                ) == ab_col(ab, c)
        },
        r matches Err(e) ==> e.kind == ErrorKind::Schema,
{
    let rows = arrow_batch_rows(ab);
    let ncols = arrow_batch_cols(ab);
    if ncols != schema.fields.len() {
        return Err(
            ConvertError::text(ErrorKind::Schema, "decoded column count differs from schema"),
        );
    }
    let mut cols: Vec<ColumnData> = Vec::new();
    let n: usize = schema.fields.len();
    for c in 0..n
        invariant
            n == schema.fields@.len(),
            ab_width(ab) == n,
            rows == ab_height(ab),
            cols@.len() == c,
            forall|j: int|
                0 <= j < c ==> crate::batch::col_type(#[trigger] cols@[j])
                    == schema@[j].data_type,
            forall|j: int| 0 <= j < c ==> (#[trigger] cols@[j])@.len() == rows,
            forall|j: int|
                0 <= j < c ==> ab_col_tag(ab, j) == tag_of_type(
                    (#[trigger] schema@[j]).data_type,
                ),
            forall|j: int|
                0 <= j < c ==> plain_col((#[trigger] cols@[j])@) == ab_col(ab, j),
    {
        let col: ColumnData = match schema.fields[c].data_type {
            DataType::Int64 => match batch_col_i64(ab, c) {
                Some(v) => ColumnData::Int64(v),
                None => {
                    proof {
                        assert(ab_col_tag(ab, c as int) != tag_of_type(
                            schema@[c as int].data_type,
                        ));
                    }
                    return Err(
                        ConvertError::text(ErrorKind::Schema, "decoded column is not an int64"),
                    );
                },
            },
            DataType::Timestamp => match batch_col_ts(ab, c) {
                Some(v) => ColumnData::Timestamp(v),
                None => {
                    proof {
                        assert(ab_col_tag(ab, c as int) != tag_of_type(
                            schema@[c as int].data_type,
                        ));
                    }
                    return Err(
                        ConvertError::text(
                            ErrorKind::Schema,
                            "decoded column is not a timestamp",
                        ),
                    );
                },
            },
            DataType::Boolean => match batch_col_bool(ab, c) {
                Some(v) => ColumnData::Boolean(v),
                None => {
                    proof {
                        assert(ab_col_tag(ab, c as int) != tag_of_type(
                            schema@[c as int].data_type,
                        ));
                    }
                    return Err(
                        ConvertError::text(ErrorKind::Schema, "decoded column is not a boolean"),
                    );
                },
            },
            DataType::Utf8 => match batch_col_utf8(ab, c) {
                Some(v) => ColumnData::Utf8(v),
                None => {
                    proof {
                        assert(ab_col_tag(ab, c as int) != tag_of_type(
                            schema@[c as int].data_type,
                        ));
                    }
                    return Err(
                        ConvertError::text(ErrorKind::Schema, "decoded column is not a string"),
                    );
                },
            },
            DataType::Float64 => match batch_col_f64_text(ab, c) {
                Some(v) => ColumnData::Float64(v),
                None => {
                    proof {
                        assert(ab_col_tag(ab, c as int) != tag_of_type(
                            schema@[c as int].data_type,
                        ));
                    }
                    return Err(
                        ConvertError::text(ErrorKind::Schema, "decoded column is not a float64"),
                    );
                },
            },
        };
        if col.len() != rows {
            // The extractor yields exactly one cell per batch row.
            proof {
                assert(false);
            }
            return Err(
                ConvertError::text(ErrorKind::Schema, "decoded column length differs from rows"),
            );
        }
        cols.push(col);
    }
    match RecordBatch::new(schema.clone(), rows, cols) {
        Ok(b) => Ok(b),
        Err(_) => {
            // The columns were validated above, so assembly succeeds.
            proof {
                assert(false);
            }
            Err(ConvertError::text(ErrorKind::Schema, "decoded batch does not fit the schema"))
        },
    }
}

/// The columnar binary codec: its settings.
#[derive(Debug)]
pub struct ParquetFormat {
    pub config: ParquetConfig,
}

impl Clone for ParquetFormat {
    fn clone(&self) -> (r: ParquetFormat)
        ensures
            r.config.batch_size == self.config.batch_size,
            r.config.compression@ == self.config.compression@,
            r.config.row_group_size == self.config.row_group_size,
    {
        ParquetFormat {
            config: ParquetConfig {
                batch_size: self.config.batch_size,
                use_statistics: self.config.use_statistics,
                row_group_size: self.config.row_group_size,
                compression: crate::bytesutil::clone_bytes(&self.config.compression),
                page_size: self.config.page_size,
                dictionary_page_size: self.config.dictionary_page_size,
            },
        }
    }
}

impl ParquetFormat {
    /// A codec over the given settings.
    pub fn new(config: &ParquetConfig) -> (r: ParquetFormat)
        ensures
            r.config.batch_size == config.batch_size,
            r.config.use_statistics == config.use_statistics,
            r.config.row_group_size == config.row_group_size,
            r.config.compression@ == config.compression@,
            r.config.page_size == config.page_size,
            r.config.dictionary_page_size == config.dictionary_page_size,
    {
        ParquetFormat {
            config: ParquetConfig {
                batch_size: config.batch_size,
                use_statistics: config.use_statistics,
                row_group_size: config.row_group_size,
                compression: crate::bytesutil::clone_bytes(&config.compression),
                page_size: config.page_size,
                dictionary_page_size: config.dictionary_page_size,
            },
        }
    }

    /// The schema stored in the file footer. The sample must reach the
    /// footer; otherwise the call fails with a decode error asking for
    /// more data. It succeeds exactly when the footer is complete, its
    /// metadata parses, and every stored column type is supported, and
    /// then the result is the stored schema.
    pub fn infer_schema(&self, data: &Vec<u8>) -> (r: Result<Schema, ConvertError>)
        ensures
            r is Ok <==> (footer_complete(data@) && (pq_stored_fields(data@) matches Some(sf)
                && forall|i: int| 0 <= i < sf.len() ==> supported_tag((#[trigger] sf[i]).1))),
            r matches Ok(s) ==> pq_stored_fields(data@) == Some(plain_fields(s@)),
            r matches Err(e) ==> e.kind == ErrorKind::Decode,
    {
        if !footer_check(data) {
            return Err(
                ConvertError::text(ErrorKind::Decode, "need more data to reach the file footer"),
            );
        }
        let arrow_schema = match parquet_arrow_schema(data) {
            Ok(s) => s,
            Err(_) => {
                return Err(ConvertError::text(ErrorKind::Decode, "file metadata does not parse"));
            },
        };
        let n = arrow_schema_len(&arrow_schema);
        let mut fields: Vec<Field> = Vec::new();
        for i in 0..n
            invariant
                n == sh_fields(&arrow_schema).len(),
                pq_stored_fields(data@) == Some(sh_fields(&arrow_schema)),
                fields@.len() == i,
                forall|j: int|
                    0 <= j < i ==> plain_of_field((#[trigger] fields@[j])@) == sh_fields(
                        &arrow_schema,
                    )[j],
                forall|j: int|
                    0 <= j < i ==> supported_tag((#[trigger] sh_fields(&arrow_schema)[j]).1),
        {
            match arrow_schema_field(&arrow_schema, i) {
                Some((name, Some(dt), nullable)) => {
                    fields.push(Field { name, data_type: dt, nullable });
                },
                Some((_, None, _)) => {
                    proof {
                        assert(pq_stored_fields(data@)->0 == sh_fields(&arrow_schema));
                        assert(!supported_tag(pq_stored_fields(data@)->0[i as int].1));
                    }
                    return Err(
                        ConvertError::text(ErrorKind::Decode, "unsupported column type in file"),
                    );
                },
                None => {
                    // The index stays below the field count.
                    proof {
                        assert(false);
                    }
                    return Err(ConvertError::text(ErrorKind::Decode, "file schema is inconsistent"));
                },
            }
        }
        let s = Schema { fields };
        proof {
            assert(plain_fields(s@) =~= sh_fields(&arrow_schema));
        }
        Ok(s)
    }

    /// Decode the whole buffer into validated batches. The schema is
    /// the one the footer stores; every decoded batch is validated
    /// against it. The call succeeds exactly when the footer schema is
    /// readable and supported and the whole file decodes, and then the
    /// batches' columns concatenate to exactly the file's contents; a
    /// file with no rows decodes to one batch with no rows.
    pub fn read_batches(&self, data: &Vec<u8>) -> (r: Result<Vec<RecordBatch>, ConvertError>)
        ensures
            r is Ok <==> (footer_complete(data@) && (pq_stored_fields(data@) matches Some(sf)
                && forall|i: int| 0 <= i < sf.len() ==> supported_tag((#[trigger] sf[i]).1))
                && pq_cols(data@) is Some),
            r matches Ok(bs) ==> {
                &&& pq_stored_fields(data@) matches Some(sf)
                &&& pq_cols(data@) matches Some(cols)
                &&& forall|k: int|
                    0 <= k < bs@.len() ==> (#[trigger] bs@[k]).wf() && plain_fields(
                        bs@[k].schema@,
                    ) == pq_stored_fields(data@)->0 && bs@[k].num_rows <= clamped(
                        self.config.batch_size as int,
                    )
                &&& forall|c: int|
                    0 <= c < pq_stored_fields(data@)->0.len() ==> #[trigger] cat_batch_col(
                        bs@,
                        c,
                    ) == cols[c]
            },
            r matches Err(e) ==> e.kind == ErrorKind::Decode || e.kind == ErrorKind::Schema,
    {
        let schema = match self.infer_schema(data) {
            Ok(s) => s,
            Err(e) => {
                return Err(e);
            },
        };
        let arrow_batches = match parquet_read_all(data, self.config.batch_size) {
            Ok(bs) => bs,
            Err(e) => {
                return Err(e);
            },
        };
        let ghost sf = pq_stored_fields(data@)->0;
        proof {
            assert(sf == plain_fields(schema@));
            assert(sf.len() == schema@.len());
            assert(forall|c: int|
                0 <= c < sf.len() ==> (#[trigger] sf[c]).1 == tag_of_type(
                    schema@[c].data_type,
                ));
        }
        let mut out: Vec<RecordBatch> = Vec::new();
        let n: usize = arrow_batches.len();
        proof {
            assert(arrow_batches@.take(0) =~= Seq::<ArrowBatchHandle>::empty());
        }
        for i in 0..n
            invariant
                n == arrow_batches@.len(),
                out@.len() == i,
                sf == pq_stored_fields(data@)->0,
                sf == plain_fields(schema@),
                sf.len() == schema@.len(),
                forall|c: int|
                    0 <= c < sf.len() ==> (#[trigger] sf[c]).1 == tag_of_type(
                        schema@[c].data_type,
                    ),
                forall|k: int|
                    0 <= k < n ==> ab_width(&(#[trigger] arrow_batches@[k])) == sf.len()
                        && ab_height(&arrow_batches@[k]) <= clamped(self.config.batch_size as int)
                        && forall|c: int|
                        0 <= c < sf.len() ==> #[trigger] ab_col_tag(&arrow_batches@[k], c)
                            == sf[c].1,
                forall|k: int|
                    0 <= k < i ==> (#[trigger] out@[k]).wf() && plain_fields(out@[k].schema@)
                        == sf && out@[k].num_rows <= clamped(self.config.batch_size as int),
                forall|c: int|
                    0 <= c < sf.len() ==> #[trigger] cat_batch_col(out@, c) == cat_col(
                        arrow_batches@.take(i as int),
                        c,
                    ),
        {
            let converted = match batch_from_arrow(&arrow_batches[i], &schema) {
                Ok(b) => b,
                Err(_) => {
                    // The decoded batches carry the stored schema, which
                    // the inferred schema equals, so conversion succeeds.
                    proof {
                        assert(false);
                    }
                    return Err(ConvertError::text(ErrorKind::Schema, "decoded batch mismatch"));
                },
            };
            let ghost prev = out@;
            out.push(converted);
            proof {
                assert(plain_fields(converted.schema@) =~= sf);
                assert forall|c: int| 0 <= c < sf.len() implies #[trigger] cat_batch_col(
                    out@,
                    c,
                ) == cat_col(arrow_batches@.take(i as int + 1), c) by {
                    assert(out@.drop_last() =~= prev);
                    assert(out@.last() == converted);
                    assert(arrow_batches@.take(i as int + 1).drop_last() =~= arrow_batches@.take(
                        i as int,
                    ));
                    assert(arrow_batches@.take(i as int + 1).last() == arrow_batches@[i as int]);
                    assert(plain_col(crate::batch::batch_cols(&converted)[c]) == ab_col(
                        &arrow_batches@[i as int],
                        c,
                    ));
                    assert(cat_batch_col(out@, c) == cat_batch_col(prev, c) + plain_col(
                        crate::batch::batch_cols(&converted)[c],
                    ));
                    assert(cat_col(arrow_batches@.take(i as int + 1), c) == cat_col(
                        arrow_batches@.take(i as int),
                        c,
                    ) + ab_col(&arrow_batches@[i as int], c));
                    assert(cat_batch_col(prev, c) == cat_col(arrow_batches@.take(i as int), c));
                }
            }
        }
        proof {
            assert(arrow_batches@.take(n as int) =~= arrow_batches@);
        }
        if out.len() == 0 {
            // A file with no rows still denotes its schema: decode it
            // to one batch with no rows so that it round-trips.
            out.push(crate::batch::empty_batch(schema));
            proof {
                assert forall|c: int| 0 <= c < sf.len() implies #[trigger] cat_batch_col(
                    out@,
                    c,
                ) == pq_cols(data@)->0[c] by {
                    assert(out@.drop_last() =~= Seq::<RecordBatch>::empty());
                    assert(cat_batch_col(Seq::<RecordBatch>::empty(), c) == Seq::<
                        (int, int, Seq<u8>, bool),
                    >::empty());
                    assert(cat_batch_col(out@, c) == cat_batch_col(out@.drop_last(), c)
                        + plain_col(crate::batch::batch_cols(&out@.last())[c]));
                    assert(plain_col(crate::batch::batch_cols(&out@.last())[c]) =~= Seq::<
                        (int, int, Seq<u8>, bool),
                    >::empty());
                    assert(cat_col(arrow_batches@, c) == pq_cols(data@)->0[c]);
                    assert(cat_col(arrow_batches@, c) =~= Seq::<(int, int, Seq<u8>, bool)>::empty());
                    assert(cat_batch_col(out@, c) =~= Seq::<(int, int, Seq<u8>, bool)>::empty());
                }
                assert(plain_fields(out@[0].schema@) =~= sf);
            }
        }
        Ok(out)
    }

    /// Encode batches into one complete file buffer: on success the
    /// buffer ends in a complete footer.
    ///
    /// Fails with an encode error on an empty batch sequence or an
    /// unsupported compression name, and with a schema error exactly
    /// when a batch's schema differs from the first batch's. Two cell
    /// forms do not survive this encoding: a string cell that is not
    /// UTF-8 and float text outside the float grammar are stored as
    /// nulls by the column builders.
    pub fn write_batches(&self, batches: &Vec<RecordBatch>) -> (r: Result<Vec<u8>, ConvertError>)
        requires
            forall|i: int| 0 <= i < batches@.len() ==> (#[trigger] batches@[i]).wf(),
        ensures
            match r {
                Ok(out) => {
                    &&& batches@.len() >= 1
                    &&& codec_of_name(self.config.compression@) is Some
                    &&& forall|i: int|
                        0 <= i < batches@.len() ==> (#[trigger] batches@[i]).schema@
                            == batches@[0].schema@
                    &&& footer_complete(out@)
                },
                Err(e) => e.kind == ErrorKind::Encode || e.kind == ErrorKind::Schema,
            },
    {
        if batches.len() == 0 {
            return Err(ConvertError::text(ErrorKind::Encode, "no record batches to write"));
        }
        let codec = match parse_compression(&self.config.compression) {
            Some(c) => c,
            None => {
                return Err(ConvertError::text(ErrorKind::Encode, "unsupported compression codec"));
            },
        };
        let arrow_schema = schema_to_arrow(&batches[0].schema);
        let props = writer_props_for(
            codec,
            self.config.row_group_size,
            self.config.page_size,
            self.config.dictionary_page_size,
            self.config.batch_size,
        );
        let mut writer = match parquet_writer_new(&arrow_schema, props) {
            Ok(w) => w,
            Err(e) => {
                return Err(e);
            },
        };
        let n: usize = batches.len();
        for i in 0..n
            invariant
                n == batches@.len(),
                n >= 1,
                codec_of_name(self.config.compression@) is Some,
                forall|j: int| 0 <= j < n ==> (#[trigger] batches@[j]).wf(),
                forall|j: int|
                    0 <= j < i ==> (#[trigger] batches@[j]).schema@ == batches@[0].schema@,
        {
            if !batches[i].schema.matches(&batches[0].schema) {
                return Err(
                    ConvertError::text(ErrorKind::Schema, "batch schema differs from the first"),
                );
            }
            let converted = match batch_to_arrow(&batches[i], &arrow_schema) {
                Ok(ab) => ab,
                Err(e) => {
                    return Err(e);
                },
            };
            match parquet_writer_write(&mut writer, &converted) {
                Ok(_) => {
                },
                Err(e) => {
                    return Err(e);
                },
            }
        }
        parquet_writer_finish(writer)
    }
}

/// Where the streaming decoder stands.
#[derive(Clone, Copy, Debug, PartialEq, Eq, Structural)]
pub enum ReaderState {
    /// Still collecting bytes; the footer is not in reach yet.
    NeedFooter,
    /// The footer was read; row groups remain to decode.
    Ready,
    /// Every row group was decoded.
    Done,
}

/// The streaming decoder: collects byte chunks until the footer is
/// visible, then decodes one row group at a time.
#[derive(Debug)]
pub struct StreamingParquetReader {
    pub buffer: Vec<u8>,
    pub row_groups_read: usize,
    pub total_row_groups: usize,
    pub started: bool,
    pub batch_size: usize,
}

impl StreamingParquetReader {
    /// The decoder's state machine position.
    pub open spec fn state_of(&self) -> ReaderState {
        if !self.started {
            ReaderState::NeedFooter
        } else if self.row_groups_read < self.total_row_groups {
            ReaderState::Ready
        } else {
            ReaderState::Done
        }
    }

    /// A fresh decoder with an empty buffer.
    pub fn new(batch_size: usize) -> (r: StreamingParquetReader)
        ensures
            r.buffer@.len() == 0,
            r.row_groups_read == 0,
            r.total_row_groups == 0,
            !r.started,
            r.batch_size == batch_size,
            r.state_of() == ReaderState::NeedFooter,
    {
        StreamingParquetReader {
            buffer: Vec::new(),
            row_groups_read: 0,
            total_row_groups: 0,
            started: false,
            batch_size,
        }
    }

    /// The current state.
    pub fn state(&self) -> (r: ReaderState)
        ensures
            r == self.state_of(),
    {
        if !self.started {
            ReaderState::NeedFooter
        } else if self.row_groups_read < self.total_row_groups {
            ReaderState::Ready
        } else {
            ReaderState::Done
        }
    }

    /// Append one source chunk to the buffer.
    pub fn push_chunk(&mut self, chunk: &Vec<u8>)
        ensures
            final (self).buffer@ == old(self).buffer@ + chunk@,
            final (self).row_groups_read == old(self).row_groups_read,
            final (self).total_row_groups == old(self).total_row_groups,
            final (self).started == old(self).started,
            final (self).batch_size == old(self).batch_size,
    {
        let mut copied = crate::bytesutil::clone_bytes(chunk);
        self.buffer.append(&mut copied);
    }

    /// Try to read the footer: until the buffer ends in a complete
    /// footer the decoder stays collecting; once it does, the row-group
    /// count is read from the metadata and decoding can begin. The
    /// start succeeds exactly when the footer is complete and its
    /// metadata parses.
    pub fn try_start(&mut self) -> (r: Result<bool, ConvertError>)
        requires
            !old(self).started,
        ensures
            final (self).buffer@ == old(self).buffer@,
            final (self).batch_size == old(self).batch_size,
            final (self).row_groups_read == old(self).row_groups_read,
            (r matches Ok(true)) <==> (footer_complete(old(self).buffer@) && pq_group_count(
                old(self).buffer@,
            ) is Some),
            match r {
                Ok(true) => final (self).started && pq_group_count(old(self).buffer@) == Some(
                    final (self).total_row_groups as int,
                ),
                Ok(false) => !final (self).started && !footer_complete(old(self).buffer@)
                    && final (self).total_row_groups == old(self).total_row_groups,
                Err(e) => e.kind == ErrorKind::Decode && footer_complete(old(self).buffer@)
                    && pq_group_count(old(self).buffer@) is None && !final (self).started,
            },
    {
        if !footer_check(&self.buffer) {
            return Ok(false);
        }
        match parquet_num_row_groups(&self.buffer) {
            Ok(total) => {
                self.total_row_groups = total;
                self.started = true;
                Ok(true)
            },
            Err(e) => Err(e),
        }
    }

    /// Decode the next row group into validated batches; none when
    /// every row group was decoded. A readable, schema-compatible group
    /// is guaranteed to decode, and its batches' columns concatenate
    /// to exactly the group's contents.
    pub fn next_row_group(&mut self, schema: &Schema) -> (r: Result<
        Option<Vec<RecordBatch>>,
        ConvertError,
    >)
        requires
            old(self).started,
        ensures
            final (self).started,
            final (self).buffer@ == old(self).buffer@,
            final (self).total_row_groups == old(self).total_row_groups,
            final (self).batch_size == old(self).batch_size,
            (old(self).state_of() == ReaderState::Ready && (pq_group_count(old(self).buffer@)
                matches Some(gc) && old(self).row_groups_read < gc) && pq_group_cols(
                old(self).buffer@,
                old(self).row_groups_read as int,
            ) is Some && (pq_stored_fields(old(self).buffer@) matches Some(sf)
                && fields_compatible(schema@, sf))) ==> (r matches Ok(o) && o is Some),
            match r {
                Ok(out) => match out {
                    Some(bs) => {
                        &&& old(self).state_of() == ReaderState::Ready
                        &&& final (self).row_groups_read == old(self).row_groups_read + 1
                        &&& (pq_group_count(old(self).buffer@) matches Some(gc) && old(
                            self,
                        ).row_groups_read < gc)
                        &&& pq_group_cols(
                            old(self).buffer@,
                            old(self).row_groups_read as int,
                        ) matches Some(gcols)
                        &&& forall|k: int|
                            0 <= k < bs@.len() ==> (#[trigger] bs@[k]).wf() && bs@[k].schema@
                                == schema@ && bs@[k].num_rows <= clamped(
                                old(self).batch_size as int,
                            )
                        &&& ((pq_stored_fields(old(self).buffer@) matches Some(sf)
                            && fields_compatible(schema@, sf)) ==> forall|c: int|
                            0 <= c < schema@.len() ==> #[trigger] cat_batch_col(bs@, c)
                                == pq_group_cols(
                                old(self).buffer@,
                                old(self).row_groups_read as int,
                            )->0[c])
                    },
                    None => {
                        &&& old(self).state_of() == ReaderState::Done
                        &&& *final (self) == *old(self)
                    },
                },
                Err(e) => (e.kind == ErrorKind::Decode || e.kind == ErrorKind::Schema) && final (
                self).row_groups_read == old(self).row_groups_read,
            },
    {
        if self.row_groups_read >= self.total_row_groups {
            return Ok(None);
        }
        let arrow_batches = match parquet_read_row_group(
            &self.buffer,
            self.row_groups_read,
            self.batch_size,
        ) {
            Ok(bs) => bs,
            Err(e) => {
                return Err(e);
            },
        };
        let ghost buf = old(self).buffer@;
        let ghost group = old(self).row_groups_read as int;
        let ghost sf = pq_stored_fields(buf)->0;
        let ghost gcols = pq_group_cols(buf, group)->0;
        let mut out: Vec<RecordBatch> = Vec::new();
        let n: usize = arrow_batches.len();
        proof {
            assert(arrow_batches@.take(0) =~= Seq::<ArrowBatchHandle>::empty());
        }
        for i in 0..n
            invariant
                n == arrow_batches@.len(),
                out@.len() == i,
                self.started,
                self.started == old(self).started,
                self.buffer@ == old(self).buffer@,
                self.batch_size == old(self).batch_size,
                self.total_row_groups == old(self).total_row_groups,
                self.row_groups_read == old(self).row_groups_read,
                buf == old(self).buffer@,
                group == old(self).row_groups_read as int,
                pq_stored_fields(buf) == Some(sf),
                pq_group_cols(buf, group) == Some(gcols),
                gcols.len() == sf.len(),
                forall|c: int| 0 <= c < sf.len() ==> #[trigger] cat_col(arrow_batches@, c)
                    == gcols[c],
                forall|k: int|
                    0 <= k < n ==> ab_width(&(#[trigger] arrow_batches@[k])) == sf.len()
                        && ab_height(&arrow_batches@[k]) <= clamped(old(self).batch_size as int)
                        && forall|c: int|
                        0 <= c < sf.len() ==> #[trigger] ab_col_tag(&arrow_batches@[k], c)
                            == sf[c].1,
                forall|k: int|
                    0 <= k < i ==> (#[trigger] out@[k]).wf() && out@[k].schema@ == schema@
                        && out@[k].num_rows <= clamped(old(self).batch_size as int),
                fields_compatible(schema@, sf) ==> forall|c: int|
                    0 <= c < schema@.len() ==> #[trigger] cat_batch_col(out@, c) == cat_col(
                        arrow_batches@.take(i as int),
                        c,
                    ),
        {
            match batch_from_arrow(&arrow_batches[i], schema) {
                Ok(b) => {
                    let ghost prev = out@;
                    out.push(b);
                    proof {
                        if fields_compatible(schema@, sf) {
                            assert forall|c: int| 0 <= c < schema@.len()
                                implies #[trigger] cat_batch_col(out@, c) == cat_col(
                                arrow_batches@.take(i as int + 1),
                                c,
                            ) by {
                                assert(out@.drop_last() =~= prev);
                                assert(out@.last() == b);
                                assert(arrow_batches@.take(i as int + 1).drop_last()
                                    =~= arrow_batches@.take(i as int));
                                assert(arrow_batches@.take(i as int + 1).last()
                                    == arrow_batches@[i as int]);
                                assert(plain_col(crate::batch::batch_cols(&b)[c]) == ab_col(
                                    &arrow_batches@[i as int],
                                    c,
                                ));
                                assert(cat_batch_col(out@, c) == cat_batch_col(prev, c)
                                    + plain_col(crate::batch::batch_cols(&b)[c]));
                                assert(cat_col(arrow_batches@.take(i as int + 1), c) == cat_col(
                                    arrow_batches@.take(i as int),
                                    c,
                                ) + ab_col(&arrow_batches@[i as int], c));
                            }
                        }
                    }
                },
                Err(e) => {
                    proof {
                        assert(!fields_compatible(schema@, sf));
                    }
                    return Err(e);
                },
            }
        }
        proof {
            assert(arrow_batches@.take(n as int) =~= arrow_batches@);
        }
        self.row_groups_read = self.row_groups_read + 1;
        Ok(Some(out))
    }
}

} // verus!
