use array_kernels::column::Column;
use array_kernels::dtype::{try_get_supertype, DataType};
use array_kernels::error::Error;
use array_kernels::output_field::{
    ColumnsUdf, Context, Field, FunctionOutputField, GetOutput, Schema, SpecialEq,
};

fn fields(dts: Vec<DataType>) -> Vec<Field> {
    dts.into_iter()
        .enumerate()
        .map(|(i, dt)| Field::new(format!("f{i}"), dt))
        .collect()
}

fn empty_schema() -> Schema {
    Schema { fields: Vec::new() }
}

#[test]
fn same_type_and_first_return_the_first_field() {
    let fs = fields(vec![DataType::Int32, DataType::String]);
    let out = GetOutput::same_type().output_field(&fs).unwrap();
    assert_eq!(out.name, "f0");
    assert_eq!(out.dtype, DataType::Int32);
    let out = GetOutput::first().output_field(&fs).unwrap();
    assert_eq!(out.dtype, DataType::Int32);
}

#[test]
fn from_type_fixes_the_dtype_and_keeps_the_name() {
    let fs = fields(vec![DataType::Int32]);
    let out = GetOutput::from_type(DataType::Boolean).output_field(&fs).unwrap();
    assert_eq!(out.name, "f0");
    assert_eq!(out.dtype, DataType::Boolean);
}

#[test]
fn float_type_keeps_narrow_floats_and_widens_the_rest() {
    let narrow = GetOutput::float_type()
        .output_field(&fields(vec![DataType::Float32]))
        .unwrap();
    assert_eq!(narrow.dtype, DataType::Float32);
    let wide = GetOutput::float_type()
        .output_field(&fields(vec![DataType::Int16]))
        .unwrap();
    assert_eq!(wide.dtype, DataType::Float64);
}

#[test]
fn super_type_folds_over_all_inputs() {
    let out = GetOutput::super_type()
        .output_field(&fields(vec![DataType::Int8, DataType::Int32, DataType::UInt16]))
        .unwrap();
    assert_eq!(out.dtype, DataType::Int32);
    let bad = GetOutput::super_type()
        .output_field(&fields(vec![DataType::String, DataType::Int8]));
    assert_eq!(bad.map(|f| f.dtype), Err(Error::UnsupportedDtype));
}

#[test]
fn output_field_on_no_inputs_is_a_length_mismatch() {
    let none: Vec<Field> = Vec::new();
    assert_eq!(
        GetOutput::same_type().output_field(&none).map(|f| f.dtype),
        Err(Error::LengthMismatch)
    );
}

#[test]
fn get_output_implements_function_output_field() {
    let fs = fields(vec![DataType::Date]);
    let g = GetOutput::default();
    let out = g.get_field(&empty_schema(), Context::Default, &fs).unwrap();
    assert_eq!(out.dtype, DataType::Date);
    let out = g.get_field(&empty_schema(), Context::Aggregation, &fs).unwrap();
    assert_eq!(out.name, "f0");
}

#[test]
fn supertype_table() {
    assert_eq!(
        try_get_supertype(&DataType::Int8, &DataType::Int8),
        Ok(DataType::Int8)
    );
    assert_eq!(
        try_get_supertype(&DataType::Int8, &DataType::Int64),
        Ok(DataType::Int64)
    );
    assert_eq!(
        try_get_supertype(&DataType::UInt8, &DataType::UInt32),
        Ok(DataType::UInt32)
    );
    assert_eq!(
        try_get_supertype(&DataType::UInt32, &DataType::Int16),
        Ok(DataType::Int32)
    );
    assert_eq!(
        try_get_supertype(&DataType::Float32, &DataType::Int64),
        Ok(DataType::Float32)
    );
    assert_eq!(
        try_get_supertype(&DataType::Float32, &DataType::Float64),
        Ok(DataType::Float64)
    );
    assert_eq!(
        try_get_supertype(&DataType::String, &DataType::Boolean),
        Err(Error::UnsupportedDtype)
    );
}

#[test]
fn special_eq_wraps_a_value() {
    let w = SpecialEq::new(DataType::Int64);
    assert_eq!(*w.get(), DataType::Int64);
}

struct Noop;

impl ColumnsUdf for Noop {
    fn call_udf(&self, s: &mut Vec<Column>) -> Result<Option<Column>, Error> {
        Ok(s.pop())
    }
}

#[test]
fn opaque_functions_cannot_serialize_by_default() {
    let f = Noop;
    let mut cols: Vec<Column> = Vec::new();
    assert!(matches!(f.call_udf(&mut cols), Ok(None)));
    let mut buf: Vec<u8> = Vec::new();
    assert_eq!(f.try_serialize(&mut buf), Err(Error::Serialization));
}
