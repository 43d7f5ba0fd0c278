use array_kernels::column::{ArrayColumn, Column, IdxColumn, ListColumn};
use array_kernels::dtype::DataType;
use array_kernels::error::Error;
use array_kernels::gather::{array_gather, array_get, take_series, GatherIndices};
use array_kernels::join::array_join;
use array_kernels::repeat_by::{check_lengths, repeat_by};
use array_kernels::scalar::Scalar;

fn int_array(rows: Vec<Option<Vec<Option<i64>>>>, width: usize) -> ArrayColumn {
    let rows = rows
        .into_iter()
        .map(|r| r.map(|vals| vals.into_iter().map(|v| v.map(Scalar::Int)).collect()))
        .collect();
    ArrayColumn {
        name: String::from("src"),
        inner_dtype: DataType::Int64,
        width,
        rows,
    }
}

fn int_col(vals: Vec<Option<i64>>) -> Column {
    Column {
        name: String::from("idx"),
        dtype: DataType::Int64,
        values: vals.into_iter().map(|v| v.map(Scalar::Int)).collect(),
    }
}

fn uint_col(vals: Vec<Option<u64>>) -> Column {
    Column {
        name: String::from("idx"),
        dtype: DataType::UInt64,
        values: vals.into_iter().map(|v| v.map(Scalar::UInt)).collect(),
    }
}

fn as_int(v: &Option<Scalar>) -> Option<i64> {
    match v {
        Some(Scalar::Int(x)) => Some(*x),
        None => None,
        _ => panic!("expected a signed value"),
    }
}

fn row_ints(r: &Option<Vec<Option<Scalar>>>) -> Option<Vec<Option<i64>>> {
    r.as_ref().map(|row| row.iter().map(as_int).collect())
}

#[test]
fn gather_one_past_end_is_null_when_lenient() {
    // index `width` on a row of width 3 yields null at that position
    let ca = int_array(vec![Some(vec![Some(10), Some(20), Some(30)])], 3);
    let idx = GatherIndices::Flat(uint_col(vec![Some(0), Some(3)]));
    let out = array_gather(&ca, &idx, true).unwrap();
    assert_eq!(out.name, "src");
    assert_eq!(row_ints(&out.rows[0]), Some(vec![Some(10), None]));
}

#[test]
fn gather_one_past_end_fails_when_strict() {
    let ca = int_array(vec![Some(vec![Some(10), Some(20), Some(30)])], 3);
    let idx = GatherIndices::Flat(uint_col(vec![Some(0), Some(3)]));
    assert!(matches!(array_gather(&ca, &idx, false), Err(Error::OutOfBounds)));
}

#[test]
fn negative_one_resolves_to_last_element() {
    let ca = int_array(vec![Some(vec![Some(10), Some(20), Some(30)])], 3);
    let idx = GatherIndices::Flat(int_col(vec![Some(-1)]));
    let out = array_gather(&ca, &idx, false).unwrap();
    assert_eq!(row_ints(&out.rows[0]), Some(vec![Some(30)]));
}

#[test]
fn negative_width_minus_one_is_out_of_bounds() {
    let ca = int_array(vec![Some(vec![Some(10), Some(20), Some(30)])], 3);
    let strict = GatherIndices::Flat(int_col(vec![Some(-4)]));
    assert!(matches!(array_gather(&ca, &strict, false), Err(Error::OutOfBounds)));
    let lenient = GatherIndices::Flat(int_col(vec![Some(-4)]));
    let out = array_gather(&ca, &lenient, true).unwrap();
    assert_eq!(row_ints(&out.rows[0]), Some(vec![None]));
}

#[test]
fn gather_all_null_signed_indices_fail() {
    let ca = int_array(vec![Some(vec![Some(10)])], 1);
    let idx = GatherIndices::Flat(int_col(vec![None, None]));
    assert!(matches!(array_gather(&ca, &idx, true), Err(Error::AllIndicesNull)));
}

#[test]
fn gather_rejects_non_integer_indices() {
    let ca = int_array(vec![Some(vec![Some(10)])], 1);
    let bools = Column {
        name: String::new(),
        dtype: DataType::Boolean,
        values: vec![Some(Scalar::Bool(true))],
    };
    assert!(matches!(array_gather(&ca, &GatherIndices::Flat(bools), true), Err(Error::UnsupportedDtype)));
}

#[test]
fn gather_ragged_zips_nulls_and_keeps_source_name() {
    let ca = int_array(
        vec![Some(vec![Some(1), Some(2)]), None, Some(vec![Some(5), Some(6)])],
        2,
    );
    let lists = ListColumn {
        name: String::from("ignored"),
        inner_dtype: DataType::Int64,
        rows: vec![
            Some(vec![Some(Scalar::Int(1)), Some(Scalar::Int(0))]),
            Some(vec![Some(Scalar::Int(0))]),
            None,
        ],
    };
    let out = array_gather(&ca, &GatherIndices::List(lists), false).unwrap();
    assert_eq!(out.name, "src");
    assert_eq!(row_ints(&out.rows[0]), Some(vec![Some(2), Some(1)]));
    assert!(out.rows[1].is_none());
    assert!(out.rows[2].is_none());
}

#[test]
fn gather_null_index_position_stays_null_deliberately() {
    let ca = int_array(vec![Some(vec![Some(10), Some(20)])], 2);
    let idx = GatherIndices::Flat(int_col(vec![Some(1), None]));
    let out = array_gather(&ca, &idx, false).unwrap();
    assert_eq!(row_ints(&out.rows[0]), Some(vec![Some(20), None]));
}

#[test]
fn take_series_gathers_from_a_scalar_column() {
    let s = int_col(vec![Some(10), Some(20), Some(30)]);
    let idx = uint_col(vec![Some(2), Some(0)]);
    let out = take_series(&s, &idx, false).unwrap();
    assert_eq!(out.name, "idx");
    assert_eq!(as_int(&out.values[0]), Some(30));
    assert_eq!(as_int(&out.values[1]), Some(10));
}

#[test]
fn array_get_broadcasts_and_checks_lengths() {
    let ca = int_array(
        vec![Some(vec![Some(1), Some(2), Some(3)]), Some(vec![Some(4), Some(5), Some(6)])],
        3,
    );
    let single = int_col(vec![Some(-1)]);
    let out = array_get(&ca, &single, false).unwrap();
    assert_eq!(out.name, "src");
    assert_eq!(out.dtype, DataType::Int64);
    assert_eq!(as_int(&out.values[0]), Some(3));
    assert_eq!(as_int(&out.values[1]), Some(6));
    let mismatched = int_col(vec![Some(0), Some(1), Some(2)]);
    assert!(matches!(array_get(&ca, &mismatched, true), Err(Error::LengthMismatch)));
    let strict_oob = int_col(vec![Some(3)]);
    assert!(matches!(array_get(&ca, &strict_oob, false), Err(Error::OutOfBounds)));
    let lenient_oob = int_col(vec![Some(3)]);
    let out2 = array_get(&ca, &lenient_oob, true).unwrap();
    assert_eq!(as_int(&out2.values[0]), None);
}

fn idx(vals: Vec<Option<u64>>) -> IdxColumn {
    IdxColumn { name: String::new(), values: vals }
}

#[test]
fn repeat_by_repeats_and_keeps_empty_rows_non_null() {
    // value column [10, 20], count column [2, 0]
    let s = int_col(vec![Some(10), Some(20)]);
    let by = idx(vec![Some(2), Some(0)]);
    let out = repeat_by(&s, &by).unwrap();
    assert_eq!(row_ints(&out.rows[0]), Some(vec![Some(10), Some(10)]));
    assert_eq!(row_ints(&out.rows[1]), Some(vec![]));
}

#[test]
fn repeat_by_broadcasts_a_single_value() {
    let s = int_col(vec![Some(7)]);
    let by = idx(vec![Some(1), Some(0), Some(2)]);
    let out = repeat_by(&s, &by).unwrap();
    assert_eq!(out.rows.len(), 3);
    assert_eq!(row_ints(&out.rows[0]), Some(vec![Some(7)]));
    assert_eq!(row_ints(&out.rows[1]), Some(vec![]));
    assert_eq!(row_ints(&out.rows[2]), Some(vec![Some(7), Some(7)]));
}

#[test]
fn repeat_by_broadcasts_a_single_count() {
    let s = int_col(vec![Some(1), Some(2)]);
    let by = idx(vec![Some(2)]);
    let out = repeat_by(&s, &by).unwrap();
    assert_eq!(row_ints(&out.rows[0]), Some(vec![Some(1), Some(1)]));
    assert_eq!(row_ints(&out.rows[1]), Some(vec![Some(2), Some(2)]));
}

#[test]
fn repeat_by_null_operand_gives_null_row() {
    // a null in either operand at a row yields a null row, not an empty list
    let s = int_col(vec![Some(10), None]);
    let by = idx(vec![None, Some(3)]);
    let out = repeat_by(&s, &by).unwrap();
    assert!(out.rows[0].is_none());
    assert!(out.rows[1].is_none());
}

#[test]
fn repeat_by_length_mismatch_fails_before_any_row() {
    let s = int_col(vec![Some(1), Some(2)]);
    let by = idx(vec![Some(1), Some(1), Some(1)]);
    assert!(matches!(repeat_by(&s, &by), Err(Error::LengthMismatch)));
    assert_eq!(check_lengths(2, 3), Err(Error::LengthMismatch));
    assert!(check_lengths(1, 3).is_ok());
    assert!(check_lengths(3, 1).is_ok());
    assert!(check_lengths(3, 3).is_ok());
}

#[test]
fn repeat_by_booleans_and_strings() {
    let b = Column {
        name: String::from("b"),
        dtype: DataType::Boolean,
        values: vec![Some(Scalar::Bool(true))],
    };
    let out = repeat_by(&b, &idx(vec![Some(2)])).unwrap();
    assert_eq!(out.inner_dtype, DataType::Boolean);
    assert!(matches!(
        out.rows[0].as_ref().unwrap()[0],
        Some(Scalar::Bool(true))
    ));
    let s = Column {
        name: String::from("s"),
        dtype: DataType::String,
        values: vec![Some(Scalar::Bytes(vec![104, 105]))],
    };
    let out = repeat_by(&s, &idx(vec![Some(2)])).unwrap();
    assert_eq!(out.inner_dtype, DataType::String);
    assert_eq!(out.rows[0].as_ref().unwrap().len(), 2);
}

fn str_array(rows: Vec<Option<Vec<Option<&str>>>>, width: usize) -> ArrayColumn {
    let rows = rows
        .into_iter()
        .map(|r| {
            r.map(|vals| {
                vals.into_iter()
                    .map(|v| v.map(|s| Scalar::Bytes(s.as_bytes().to_vec())))
                    .collect()
            })
        })
        .collect();
    ArrayColumn {
        name: String::from("s"),
        inner_dtype: DataType::String,
        width,
        rows,
    }
}

fn str_col(vals: Vec<Option<&str>>) -> Column {
    Column {
        name: String::from("sep"),
        dtype: DataType::String,
        values: vals
            .into_iter()
            .map(|v| v.map(|s| Scalar::Bytes(s.as_bytes().to_vec())))
            .collect(),
    }
}

fn as_str(v: &Option<Scalar>) -> Option<String> {
    match v {
        Some(Scalar::Bytes(b)) => Some(String::from_utf8(b.clone()).unwrap()),
        None => None,
        _ => panic!("expected bytes"),
    }
}

#[test]
fn join_concatenates_with_separator() {
    let ca = str_array(
        vec![Some(vec![Some("a"), Some("b"), Some("c")]), None],
        3,
    );
    let out = array_join(&ca, &str_col(vec![Some("-")]), false).unwrap();
    assert_eq!(as_str(&out.values[0]), Some(String::from("a-b-c")));
    assert_eq!(as_str(&out.values[1]), None);
}

#[test]
fn join_null_element_nulls_the_row_unless_ignored() {
    let ca = str_array(vec![Some(vec![Some("a"), None, Some("c")])], 3);
    let strict = array_join(&ca, &str_col(vec![Some(",")]), false).unwrap();
    assert_eq!(as_str(&strict.values[0]), None);
    let loose = array_join(&ca, &str_col(vec![Some(",")]), true).unwrap();
    assert_eq!(as_str(&loose.values[0]), Some(String::from("a,c")));
}

#[test]
fn join_per_row_separators_and_length_check() {
    let ca = str_array(
        vec![Some(vec![Some("x"), Some("y")]), Some(vec![Some("u"), Some("v")])],
        2,
    );
    let out = array_join(&ca, &str_col(vec![Some("."), None]), false).unwrap();
    assert_eq!(as_str(&out.values[0]), Some(String::from("x.y")));
    assert_eq!(as_str(&out.values[1]), None);
    assert!(matches!(array_join(&ca, &str_col(vec![Some("."), None, Some(".")]), false), Err(Error::LengthMismatch)));
}

#[test]
fn shift_by_per_row_amounts() {
    let ca = int_array(
        vec![Some(vec![Some(1), Some(2), Some(3)]), Some(vec![Some(4), Some(5), Some(6)])],
        3,
    );
    let n = int_col(vec![Some(1), Some(-2)]);
    let out = array_kernels::namespace::array_shift(&ca, &n).unwrap();
    assert_eq!(row_ints(&out.rows[0]), Some(vec![None, Some(1), Some(2)]));
    assert_eq!(row_ints(&out.rows[1]), Some(vec![Some(6), None, None]));
}

#[test]
fn shift_with_null_scalar_nulls_every_row() {
    let ca = int_array(vec![Some(vec![Some(1), Some(2)]), None], 2);
    let n = int_col(vec![None]);
    let out = array_kernels::namespace::array_shift(&ca, &n).unwrap();
    assert_eq!(out.width, 2);
    assert_eq!(out.rows.len(), 2);
    assert!(out.rows[0].is_none());
    assert!(out.rows[1].is_none());
}
