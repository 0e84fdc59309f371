//! Schema model: logical types, fields, and ordered field sequences.
//!
//! A schema is an ordered sequence of fields; each field has a non-empty
//! name, a logical type from a closed set, and a nullability flag. Two
//! schemas are equal exactly when they have equal length and pairwise
//! equal (name, type, nullability). Schemas are immutable once created.

use vstd::prelude::*;

use crate::bytesutil::bytes_eq;
use crate::bytesutil::clone_bytes;

verus! {

/// The closed set of logical column types.
///
/// Floating-point columns carry their values as decimal text, so the
/// verified core never holds a machine float; the boundary converts.
#[derive(Clone, Copy, Debug, PartialEq, Eq, Structural)]
pub enum DataType {
    /// Signed 64-bit integer.
    Int64,
    /// 64-bit IEEE float, carried as decimal text in the core.
    Float64,
    /// UTF-8 string, carried as bytes.
    Utf8,
    /// Boolean.
    Boolean,
    /// 64-bit timestamp (microseconds).
    Timestamp,
}

/// A single schema field.
#[derive(Debug)]
pub struct Field {
    pub name: Vec<u8>,
    pub data_type: DataType,
    pub nullable: bool,
}

/// The mathematical value of a field.
pub struct FieldModel {
    pub name: Seq<u8>,
    pub data_type: DataType,
    pub nullable: bool,
}

impl View for Field {
    type V = FieldModel;

    open spec fn view(&self) -> FieldModel {
        FieldModel { name: self.name@, data_type: self.data_type, nullable: self.nullable }
    }
}

impl Clone for Field {
    fn clone(&self) -> (r: Field)
        ensures
            r@ == self@,
    {
        Field {
            name: clone_bytes(&self.name),
            data_type: self.data_type,
            nullable: self.nullable,
        }
    }
}

impl Clone for Schema {
    fn clone(&self) -> (r: Schema)
        ensures
            r@ == self@,
    {
        let n: usize = self.fields.len();
        let mut fields: Vec<Field> = Vec::new();
        for i in 0..n
            invariant
                n == self.fields@.len(),
                fields@.len() == i,
                forall|j: int| 0 <= j < i ==> (#[trigger] fields@[j])@ == self.fields@[j]@,
        {
            fields.push(self.fields[i].clone());
        }
        let r = Schema { fields };
        proof {
            assert(r@ =~= self@);
        }
        r
    }
}

impl Field {
    /// Build a field from its parts.
    pub fn new(name: Vec<u8>, data_type: DataType, nullable: bool) -> (r: Field)
        ensures
            r@ == (FieldModel { name: name@, data_type, nullable }),
    {
        Field { name, data_type, nullable }
    }
}

/// An ordered sequence of fields.
#[derive(Debug)]
pub struct Schema {
    pub fields: Vec<Field>,
}

impl View for Schema {
    type V = Seq<FieldModel>;

    open spec fn view(&self) -> Seq<FieldModel> {
        self.fields@.map_values(|f: Field| f@)
    }
}

/// A well-formed schema has a non-empty name on every field.
pub open spec fn schema_wf(s: Seq<FieldModel>) -> bool {
    forall|i: int| 0 <= i < s.len() ==> (#[trigger] s[i]).name.len() > 0
}

/// The projection of a schema by a sequence of column indices.
pub open spec fn project_model(s: Seq<FieldModel>, indices: Seq<int>) -> Seq<FieldModel>
    recommends
        forall|i: int| 0 <= i < indices.len() ==> 0 <= #[trigger] indices[i] < s.len(),
{
    indices.map_values(|i: int| s[i])
}

impl Schema {
    /// Build a schema from a field vector.
    pub fn new(fields: Vec<Field>) -> (r: Schema)
        ensures
            r@ == fields@.map_values(|f: Field| f@),
    {
        Schema { fields }
    }

    /// The number of fields.
    pub fn len(&self) -> (r: usize)
        ensures
            r == self@.len(),
    {
        self.fields.len()
    }

    /// Structural equality on schemas: equal length and pairwise equal
    /// (name, type, nullability).
    pub fn matches(&self, other: &Schema) -> (r: bool)
        ensures
            r <==> self@ =~= other@,
    {
        if self.fields.len() != other.fields.len() {
            proof {
                assert(self@.len() != other@.len());
            }
            return false;
        }
        let n: usize = self.fields.len();
        for i in 0..n
            invariant
                n == self.fields.len(),
                n == other.fields.len(),
                forall|j: int| 0 <= j < i ==> self@[j] == other@[j],
        {
            let a = &self.fields[i];
            let b = &other.fields[i];
            let names_same = bytes_eq(&a.name, &b.name);
            let same = names_same && a.data_type == b.data_type && a.nullable == b.nullable;
            if !same {
                proof {
                    assert(self@[i as int] == self.fields@[i as int]@);
                    assert(other@[i as int] == other.fields@[i as int]@);
                    assert(self@[i as int].name == a.name@);
                    assert(other@[i as int].name == b.name@);
                    assert(self@[i as int] != other@[i as int]);
                }
                return false;
            }
            proof {
                assert(self@[i as int] == self.fields@[i as int]@);
                assert(other@[i as int] == other.fields@[i as int]@);
                assert(self@[i as int] == other@[i as int]);
            }
        }
        proof {
            assert(self@ =~= other@);
        }
        true
    }

    /// Project the schema by column indices; fails with the offending
    /// index position when one is out of range.
    pub fn project(&self, indices: &Vec<usize>) -> (r: Result<Schema, usize>)
        ensures
            match r {
                Ok(p) => {
                    &&& forall|i: int|
                        0 <= i < indices@.len() ==> (#[trigger] indices@[i]) < self@.len()
                    &&& p@ =~= project_model(self@, indices@.map_values(|u: usize| u as int))
                },
                Err(pos) => pos < indices@.len() && indices@[pos as int] >= self@.len(),
            },
    {
        let mut out: Vec<Field> = Vec::new();
        let n: usize = indices.len();
        for i in 0..n
            invariant
                n == indices.len(),
                out@.len() == i,
                forall|j: int| 0 <= j < i ==> (#[trigger] indices@[j]) < self@.len(),
                forall|j: int| 0 <= j < i ==> out@.map_values(|f: Field| f@)[j]
                    == self@[indices@[j] as int],
        {
            let ix = indices[i];
            if ix >= self.fields.len() {
                return Err(i);
            }
            let src = &self.fields[ix];
            let copied = Field {
                name: clone_bytes(&src.name),
                data_type: src.data_type,
                nullable: src.nullable,
            };
            out.push(copied);
            proof {
                assert(out@.map_values(|f: Field| f@)[i as int] == copied@);
                assert(copied@ == self@[indices@[i as int] as int]);
            }
        }
        let s = Schema { fields: out };
        proof {
            assert(s@ =~= project_model(self@, indices@.map_values(|u: usize| u as int)));
        }
        Ok(s)
    }
}

} // verus!
