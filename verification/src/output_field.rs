use vstd::prelude::*;

use crate::column::Column;
use crate::dtype::{spec_supertype, try_get_supertype, DataType};
use crate::error::Error;
use crate::gather::clone_string;

verus! {

/// A named, typed column slot of a schema.
pub struct Field {
    pub name: String,
    pub dtype: DataType,
}

impl Field {
    pub fn new(name: String, dtype: DataType) -> (r: Field)
        ensures
            r.name == name,
            r.dtype == dtype,
    {
        Field { name, dtype }
    }

    pub fn clone_field(&self) -> (r: Field)
        ensures
            r == *self,
    {
        Field { name: clone_string(&self.name), dtype: self.dtype }
    }
}

/// An ordered collection of fields.
pub struct Schema {
    pub fields: Vec<Field>,
}

/// The evaluation context an expression runs under.
#[derive(Clone, Copy, Debug, PartialEq, Eq, Structural)]
pub enum Context {
    Default,
    Aggregation,
}

/// A wrapper trait for an opaque function over columns, implemented by the
/// callers of this library; serialization is an optional capability and
/// fails by default.
pub trait ColumnsUdf {
    fn call_udf(&self, s: &mut Vec<Column>) -> Result<Option<Column>, Error>;

    fn try_serialize(&self, buf: &mut Vec<u8>) -> Result<(), Error> {
        Err(Error::Serialization)
    }
}

/// A wrapper trait for an opaque binary function over columns, implemented
/// by the callers of this library.
pub trait ColumnBinaryUdf {
    fn call_udf(&self, a: Column, b: Column) -> Result<Column, Error>;
}

/// An opaque renaming of an output column's name, implemented by the callers
/// of this library.
pub trait RenameAliasFn {
    fn call(&self, name: &String) -> Result<String, Error>;

    fn try_serialize(&self, buf: &mut Vec<u8>) -> Result<(), Error> {
        Err(Error::Serialization)
    }
}

/// Computes the output field of an opaque binary expression node,
/// implemented by the callers of this library.
pub trait BinaryUdfOutputField {
    fn get_field(
        &self,
        input_schema: &Schema,
        cntxt: Context,
        field_a: &Field,
        field_b: &Field,
    ) -> Option<Field>;
}

/// Computes the output field of an opaque expression node, implemented by
/// the callers of this library and by `GetOutput`.
pub trait FunctionOutputField {
    fn get_field(&self, input_schema: &Schema, cntxt: Context, fields: &Vec<Field>) -> Result<
        Field,
        Error,
    >;

    fn try_serialize(&self, buf: &mut Vec<u8>) -> Result<(), Error> {
        Err(Error::Serialization)
    }
}

/// Wrapper type that carries a value whose equality is special to the inner
/// type (opaque functions compare by identity, plain values by content).
pub struct SpecialEq<T> {
    inner: T,
}

impl<T> SpecialEq<T> {
    pub closed spec fn spec_inner(&self) -> T {
        self.inner
    }

    pub fn new(val: T) -> (r: Self)
        ensures
            r.spec_inner() == val,
    {
        SpecialEq { inner: val }
    }

    pub fn get(&self) -> (r: &T)
        ensures
            *r == self.spec_inner(),
    {
        &self.inner
    }
}

/// The closed set of output-field mappings an expression node can declare.
#[derive(Clone, Copy, Debug, PartialEq, Eq, Structural)]
pub enum OutputMapping {
    /// The output field is the first input field, unchanged.
    SameType,
    /// Alias of `SameType` under its historical name.
    First,
    /// The first input's name with a fixed dtype.
    FromType(DataType),
    /// The first input's name; 32-bit floats stay 32-bit, everything else
    /// widens to a 64-bit float.
    FloatType,
    /// The first input's name with the supertype of all input dtypes.
    SuperType,
}

/// The supertype of a run of dtypes, folded left to right; none as soon as
/// one step has no supertype.
pub open spec fn fold_supertype(dts: Seq<DataType>) -> Option<DataType>
    decreases dts.len(),
{
    if dts.len() == 0 {
        None
    } else if dts.len() == 1 {
        Some(dts[0])
    } else {
        match fold_supertype(dts.drop_last()) {
            Some(st) => spec_supertype(st, dts.last()),
            None => None,
        }
    }
}

pub open spec fn field_dtypes(fields: Seq<Field>) -> Seq<DataType> {
    fields.map_values(|f: Field| f.dtype)
}

/// What `GetOutput::get_field` returns for each mapping; empty input is a
/// length mismatch, a missing supertype an unsupported-dtype failure.
pub open spec fn output_field_spec(m: OutputMapping, fields: Seq<Field>) -> Result<Field, Error> {
    if fields.len() == 0 {
        Err(Error::LengthMismatch)
    } else {
        match m {
            OutputMapping::SameType => Ok(fields[0]),
            OutputMapping::First => Ok(fields[0]),
            OutputMapping::FromType(dt) => Ok(Field { name: fields[0].name, dtype: dt }),
            OutputMapping::FloatType => Ok(
                Field {
                    name: fields[0].name,
                    dtype: if fields[0].dtype == DataType::Float32 {
                        DataType::Float32
                    } else {
                        DataType::Float64
                    },
                },
            ),
            OutputMapping::SuperType => match fold_supertype(field_dtypes(fields)) {
                Some(st) => Ok(Field { name: fields[0].name, dtype: st }),
                None => Err(Error::UnsupportedDtype),
            },
        }
    }
}

/// The declared output-field mapping of an expression node.
pub struct GetOutput {
    pub mapping: SpecialEq<OutputMapping>,
}

impl GetOutput {
    /// The output field equals the first input field.
    pub fn same_type() -> (r: Self)
        ensures
            r.mapping.spec_inner() == OutputMapping::SameType,
    {
        GetOutput { mapping: SpecialEq::new(OutputMapping::SameType) }
    }

    /// The output field equals the first input field.
    pub fn first() -> (r: Self)
        ensures
            r.mapping.spec_inner() == OutputMapping::First,
    {
        GetOutput { mapping: SpecialEq::new(OutputMapping::First) }
    }

    /// The output field keeps the first input's name and takes the given
    /// dtype.
    pub fn from_type(dt: DataType) -> (r: Self)
        ensures
            r.mapping.spec_inner() == OutputMapping::FromType(dt),
    {
        GetOutput { mapping: SpecialEq::new(OutputMapping::FromType(dt)) }
    }

    /// The output dtype is the floating-point widening of the first input's.
    pub fn float_type() -> (r: Self)
        ensures
            r.mapping.spec_inner() == OutputMapping::FloatType,
    {
        GetOutput { mapping: SpecialEq::new(OutputMapping::FloatType) }
    }

    /// The output dtype is the supertype of all input dtypes.
    pub fn super_type() -> (r: Self)
        ensures
            r.mapping.spec_inner() == OutputMapping::SuperType,
    {
        GetOutput { mapping: SpecialEq::new(OutputMapping::SuperType) }
    }

    /// Resolves the output field for the given input fields.
    pub fn output_field(&self, fields: &Vec<Field>) -> (r: Result<Field, Error>)
        ensures
            r == output_field_spec(self.mapping.spec_inner(), fields@),
    {
        if fields.len() == 0 {
            return Err(Error::LengthMismatch);
        }
        match self.mapping.get() {
            OutputMapping::SameType => Ok(fields[0].clone_field()),
            OutputMapping::First => Ok(fields[0].clone_field()),
            OutputMapping::FromType(dt) => Ok(
                Field { name: clone_string(&fields[0].name), dtype: *dt },
            ),
            OutputMapping::FloatType => Ok(
                Field {
                    name: clone_string(&fields[0].name),
                    dtype: if fields[0].dtype == DataType::Float32 {
                        DataType::Float32
                    } else {
                        DataType::Float64
                    },
                },
            ),
            OutputMapping::SuperType => {
                let mut st: DataType = fields[0].dtype;
                let mut i: usize = 1;
                let ghost dts = field_dtypes(fields@);
                proof {
                    assert(dts.take(1) =~= seq![fields@[0].dtype]);
                    assert(fold_supertype(dts.take(1)) == Some(fields@[0].dtype));
                }
                while i < fields.len()
                    invariant
                        1 <= i <= fields@.len(),
                        self.mapping.spec_inner() == OutputMapping::SuperType,
                        dts == field_dtypes(fields@),
                        dts.len() == fields@.len(),
                        fold_supertype(dts.take(i as int)) == Some(st),
                    decreases fields.len() - i,
                {
                    proof {
                        assert(dts.take(i + 1).drop_last() =~= dts.take(i as int));
                        assert(dts.take(i + 1).last() == dts[i as int]);
                        assert(dts[i as int] == fields@[i as int].dtype);
                    }
                    let next = fields[i].dtype;
                    match try_get_supertype(&st, &next) {
                        Ok(s) => {
                            st = s;
                        },
                        Err(e) => {
                            proof {
                                assert(fold_supertype(dts.take(i + 1)) is None);
                                lemma_fold_supertype_none(dts, i + 1);
                            }
                            return Err(e);
                        },
                    }
                    i += 1;
                }
                proof {
                    assert(dts.take(dts.len() as int) =~= dts);
                }
                Ok(Field { name: clone_string(&fields[0].name), dtype: st })
            },
        }
    }
}

/// Once a prefix of the fold has no supertype, the whole fold has none.
proof fn lemma_fold_supertype_none(dts: Seq<DataType>, i: int)
    requires
        0 < i <= dts.len(),
        fold_supertype(dts.take(i)) is None,
    ensures
        fold_supertype(dts) is None,
    decreases dts.len() - i,
{
    if i == dts.len() {
        assert(dts.take(i) =~= dts);
    } else {
        assert(dts.take(i + 1).drop_last() =~= dts.take(i));
        lemma_fold_supertype_none(dts, i + 1);
    }
}

impl FunctionOutputField for GetOutput {
    fn get_field(&self, input_schema: &Schema, cntxt: Context, fields: &Vec<Field>) -> Result<
        Field,
        Error,
    > {
        self.output_field(fields)
    }
}

impl Default for GetOutput {
    fn default() -> (r: Self)
        ensures
            r.mapping.spec_inner() == OutputMapping::SameType,
    {
        GetOutput::same_type()
    }
}

} // verus!
