use array_kernels::any_all::{array_all, array_any};
use array_kernels::column::{ArrayColumn, Column, SortOptions};
use array_kernels::count::array_count_matches;
use array_kernels::dtype::DataType;
use array_kernels::error::Error;
use array_kernels::namespace::{
    array_arg_max, array_arg_min, array_max, array_median, array_min, array_n_unique,
    array_reverse, array_sort, array_std, array_sum, array_unique, array_unique_stable,
    array_var, has_inner_nulls,
};
use array_kernels::scalar::Scalar;

fn int_rows(rows: Vec<Option<Vec<Option<i64>>>>, width: usize) -> ArrayColumn {
    let rows = rows
        .into_iter()
        .map(|r| r.map(|vals| vals.into_iter().map(|v| v.map(Scalar::Int)).collect()))
        .collect();
    ArrayColumn {
        name: String::from("a"),
        inner_dtype: DataType::Int64,
        width,
        rows,
    }
}

fn bool_rows(rows: Vec<Option<Vec<Option<bool>>>>, width: usize) -> ArrayColumn {
    let rows = rows
        .into_iter()
        .map(|r| r.map(|vals| vals.into_iter().map(|v| v.map(Scalar::Bool)).collect()))
        .collect();
    ArrayColumn {
        name: String::from("b"),
        inner_dtype: DataType::Boolean,
        width,
        rows,
    }
}

fn as_int(v: &Option<Scalar>) -> Option<i64> {
    match v {
        Some(Scalar::Int(x)) => Some(*x),
        None => None,
        _ => panic!("expected a signed value"),
    }
}

fn as_uint(v: &Option<Scalar>) -> Option<u64> {
    match v {
        Some(Scalar::UInt(x)) => Some(*x),
        None => None,
        _ => panic!("expected an unsigned value"),
    }
}

fn as_bool(v: &Option<Scalar>) -> Option<bool> {
    match v {
        Some(Scalar::Bool(x)) => Some(*x),
        None => None,
        _ => panic!("expected a boolean"),
    }
}

fn row_ints(r: &Option<Vec<Option<Scalar>>>) -> Option<Vec<Option<i64>>> {
    r.as_ref().map(|row| row.iter().map(as_int).collect())
}

#[test]
fn sum_excludes_nulls_and_all_null_is_null() {
    // a null element is excluded, never treated as zero; an all-null row
    // sums to null
    let ca = int_rows(
        vec![
            Some(vec![Some(1), None, Some(2)]),
            Some(vec![None, None, None]),
            None,
            Some(vec![Some(5), Some(6), Some(7)]),
        ],
        3,
    );
    let out = array_sum(&ca).unwrap();
    assert_eq!(out.name, "a");
    assert_eq!(as_int(&out.values[0]), Some(3));
    assert_eq!(as_int(&out.values[1]), None);
    assert_eq!(as_int(&out.values[2]), None);
    assert_eq!(as_int(&out.values[3]), Some(18));
}

#[test]
fn sum_boolean_counts_trues() {
    let ca = bool_rows(
        vec![
            Some(vec![Some(true), Some(false), Some(true)]),
            Some(vec![Some(false), Some(false), Some(false)]),
        ],
        3,
    );
    let out = array_sum(&ca).unwrap();
    assert_eq!(out.dtype, DataType::UInt64);
    assert_eq!(as_uint(&out.values[0]), Some(2));
    assert_eq!(as_uint(&out.values[1]), Some(0));
}

#[test]
fn sum_binary_is_unsupported() {
    let ca = ArrayColumn {
        name: String::from("s"),
        inner_dtype: DataType::String,
        width: 1,
        rows: vec![Some(vec![Some(Scalar::Bytes(vec![97]))])],
    };
    assert!(matches!(array_sum(&ca), Err(Error::UnsupportedDtype)));
}

#[test]
fn has_inner_nulls_sees_element_layer_only() {
    let no_inner = int_rows(vec![None, Some(vec![Some(1), Some(2)])], 2);
    assert!(!has_inner_nulls(&no_inner));
    let with_inner = int_rows(vec![Some(vec![Some(1), None])], 2);
    assert!(has_inner_nulls(&with_inner));
}

#[test]
fn max_and_min_skip_nulls() {
    let ca = int_rows(
        vec![
            Some(vec![Some(3), None, Some(9)]),
            Some(vec![None, None, None]),
            None,
        ],
        3,
    );
    let mx = array_max(&ca);
    let mn = array_min(&ca);
    assert_eq!(as_int(&mx.values[0]), Some(9));
    assert_eq!(as_int(&mn.values[0]), Some(3));
    assert_eq!(as_int(&mx.values[1]), None);
    assert_eq!(as_int(&mn.values[1]), None);
    assert_eq!(as_int(&mx.values[2]), None);
}

#[test]
fn arg_extremes_are_null_for_null_empty_or_all_null_rows() {
    let ca = int_rows(
        vec![None, Some(vec![None, None, None]), Some(vec![Some(2), Some(1), Some(1)])],
        3,
    );
    let amin = array_arg_min(&ca);
    let amax = array_arg_max(&ca);
    assert_eq!(amin.values[0], None);
    assert_eq!(amax.values[0], None);
    assert_eq!(amin.values[1], None);
    assert_eq!(amax.values[1], None);
    // first occurrence of the extreme value
    assert_eq!(amin.values[2], Some(1));
    assert_eq!(amax.values[2], Some(0));
    let empty = int_rows(vec![Some(vec![])], 0);
    assert_eq!(array_arg_min(&empty).values[0], None);
}

#[test]
fn arg_min_takes_first_of_equal_extremes() {
    let ca = int_rows(vec![Some(vec![Some(5), Some(1), Some(1), None])], 4);
    assert_eq!(array_arg_min(&ca).values[0], Some(1));
    assert_eq!(array_arg_max(&ca).values[0], Some(0));
}

#[test]
fn any_all_are_kleene() {
    let ca = bool_rows(
        vec![
            Some(vec![Some(true), None]),
            Some(vec![Some(false), None]),
            Some(vec![Some(false), Some(false)]),
            Some(vec![Some(true), Some(true)]),
            None,
        ],
        2,
    );
    let any = array_any(&ca).unwrap();
    let all = array_all(&ca).unwrap();
    assert_eq!(as_bool(&any.values[0]), Some(true));
    assert_eq!(as_bool(&any.values[1]), None);
    assert_eq!(as_bool(&any.values[2]), Some(false));
    assert_eq!(as_bool(&any.values[3]), Some(true));
    assert_eq!(as_bool(&any.values[4]), None);
    assert_eq!(as_bool(&all.values[0]), None);
    assert_eq!(as_bool(&all.values[1]), Some(false));
    assert_eq!(as_bool(&all.values[2]), Some(false));
    assert_eq!(as_bool(&all.values[3]), Some(true));
    assert_eq!(as_bool(&all.values[4]), None);
}

#[test]
fn any_all_on_empty_rows() {
    let ca = bool_rows(vec![Some(vec![])], 0);
    let any = array_any(&ca).unwrap();
    let all = array_all(&ca).unwrap();
    assert_eq!(as_bool(&any.values[0]), Some(false));
    assert_eq!(as_bool(&all.values[0]), Some(true));
}

#[test]
fn any_rejects_non_boolean_storage() {
    let ca = int_rows(vec![Some(vec![Some(1)])], 1);
    assert!(matches!(array_any(&ca), Err(Error::UnsupportedDtype)));
}

#[test]
fn unique_keeps_first_occurrences() {
    let ca = int_rows(
        vec![Some(vec![Some(2), Some(1), Some(2), None, None]), None],
        5,
    );
    let out = array_unique_stable(&ca).unwrap();
    assert_eq!(
        row_ints(&out.rows[0]),
        Some(vec![Some(2), Some(1), None])
    );
    assert!(out.rows[1].is_none());
    let plain = array_unique(&ca).unwrap();
    assert_eq!(row_ints(&plain.rows[0]), Some(vec![Some(2), Some(1), None]));
}

#[test]
fn n_unique_counts_null_as_one_value() {
    let ca = int_rows(
        vec![Some(vec![Some(2), Some(1), Some(2), None, None]), None],
        5,
    );
    let out = array_n_unique(&ca).unwrap();
    assert_eq!(out.values[0], Some(3));
    assert_eq!(out.values[1], None);
}

#[test]
fn count_matches_counts_equal_elements() {
    let ca = int_rows(vec![Some(vec![Some(7), Some(7), None]), None], 3);
    let out = array_count_matches(&ca, &Some(Scalar::Int(7))).unwrap();
    assert_eq!(as_uint(&out.values[0]), Some(2));
    assert_eq!(as_uint(&out.values[1]), None);
    let nulls = array_count_matches(&ca, &None).unwrap();
    assert_eq!(as_uint(&nulls.values[0]), Some(1));
}

#[test]
fn sort_orders_values_and_packs_nulls() {
    let ca = int_rows(vec![Some(vec![Some(3), None, Some(1), Some(2)])], 4);
    let asc = array_sort(
        &ca,
        SortOptions { descending: false, nulls_last: false, multithreaded: false, maintain_order: false },
    )
    .unwrap();
    assert_eq!(row_ints(&asc.rows[0]), Some(vec![None, Some(1), Some(2), Some(3)]));
    let desc_last = array_sort(
        &ca,
        SortOptions { descending: true, nulls_last: true, multithreaded: false, maintain_order: true },
    )
    .unwrap();
    assert_eq!(row_ints(&desc_last.rows[0]), Some(vec![Some(3), Some(2), Some(1), None]));
}

#[test]
fn width_is_invariant_across_sort_reverse_shift() {
    let ca = int_rows(
        vec![Some(vec![Some(3), None, Some(1)]), None, Some(vec![Some(4), Some(5), Some(6)])],
        3,
    );
    let sorted = array_sort(
        &ca,
        SortOptions { descending: false, nulls_last: true, multithreaded: false, maintain_order: false },
    )
    .unwrap();
    let reversed = array_reverse(&ca);
    let n = Column {
        name: String::new(),
        dtype: DataType::Int64,
        values: vec![Some(Scalar::Int(1))],
    };
    let shifted = array_kernels::namespace::array_shift(&ca, &n).unwrap();
    for out in [&sorted, &reversed, &shifted] {
        assert_eq!(out.width, 3);
        assert_eq!(out.rows.len(), 3);
        for row in out.rows.iter().flatten() {
            assert_eq!(row.len(), 3);
        }
    }
}

#[test]
fn reverse_reverses_each_row() {
    let ca = int_rows(vec![Some(vec![Some(1), None, Some(3)])], 3);
    let out = array_reverse(&ca);
    assert_eq!(row_ints(&out.rows[0]), Some(vec![Some(3), None, Some(1)]));
}

#[test]
fn std_and_var_are_null_when_ddof_eats_the_denominator() {
    // a row with two non-null values and ddof equal to that count yields
    // null; one more value yields the extracted run
    let ca = int_rows(vec![Some(vec![Some(1), Some(2), None]), Some(vec![Some(1), Some(2), Some(3)])], 3);
    let var = array_var(&ca, 2);
    assert_eq!(var[0], None);
    assert_eq!(var[1], Some(vec![1, 2, 3]));
    let std = array_std(&ca, 2);
    assert_eq!(std[0], None);
    let med = array_median(&ca);
    assert_eq!(med[0], Some(vec![1, 2]));
}

#[test]
fn mean_input_matches_the_median_extraction() {
    let ca = int_rows(vec![Some(vec![Some(4), None, Some(6)]), None], 3);
    let mean = array_kernels::namespace::array_mean(&ca);
    assert_eq!(mean[0], Some(vec![4, 6]));
    assert_eq!(mean[1], None);
}

#[test]
fn median_input_is_null_only_for_empty_rows() {
    let ca = int_rows(vec![None, Some(vec![None, None]), Some(vec![Some(9), None])], 2);
    let med = array_median(&ca);
    assert_eq!(med[0], None);
    assert_eq!(med[1], None);
    assert_eq!(med[2], Some(vec![9]));
}

#[test]
fn sum_wraps_like_the_machine() {
    let ca = int_rows(vec![Some(vec![Some(i64::MAX), Some(1)])], 2);
    let out = array_sum(&ca).unwrap();
    assert_eq!(as_int(&out.values[0]), Some(i64::MIN));
}

fn str_rows(rows: Vec<Option<Vec<Option<&str>>>>, width: usize) -> ArrayColumn {
    let rows = rows
        .into_iter()
        .map(|r| {
            r.map(|vals| {
                vals.into_iter()
                    .map(|v| v.map(|s| Scalar::Bytes(s.as_bytes().to_vec())))
                    .collect()
            })
        })
        .collect();
    ArrayColumn {
        name: String::from("s"),
        inner_dtype: DataType::String,
        width,
        rows,
    }
}

fn as_str(v: &Option<Scalar>) -> Option<String> {
    match v {
        Some(Scalar::Bytes(b)) => Some(String::from_utf8(b.clone()).unwrap()),
        None => None,
        _ => panic!("expected bytes"),
    }
}

#[test]
fn strings_order_lexicographically() {
    let ca = str_rows(vec![Some(vec![Some("pear"), Some("fig"), Some("figment")])], 3);
    let mx = array_max(&ca);
    let mn = array_min(&ca);
    assert_eq!(as_str(&mx.values[0]), Some(String::from("pear")));
    assert_eq!(as_str(&mn.values[0]), Some(String::from("fig")));
    let sorted = array_sort(
        &ca,
        SortOptions { descending: false, nulls_last: false, multithreaded: false, maintain_order: false },
    )
    .unwrap();
    let row = sorted.rows[0].as_ref().unwrap();
    assert_eq!(as_str(&row[0]), Some(String::from("fig")));
    assert_eq!(as_str(&row[1]), Some(String::from("figment")));
    assert_eq!(as_str(&row[2]), Some(String::from("pear")));
}

#[test]
fn amortized_traversal_applies_a_same_shape_transform() {
    let ca = int_rows(vec![Some(vec![Some(1), Some(2)]), None], 2);
    let out = array_kernels::amortized::apply_amortized_same_type(&ca, |row: &Vec<Option<Scalar>>| {
        row.iter()
            .map(|v| match v {
                Some(Scalar::Int(x)) => Some(Scalar::Int(x.wrapping_add(1))),
                _ => None,
            })
            .collect()
    });
    assert_eq!(out.width, 2);
    assert_eq!(row_ints(&out.rows[0]), Some(vec![Some(2), Some(3)]));
    assert!(out.rows[1].is_none());
}

#[test]
fn row_at_borrows_one_row() {
    let ca = int_rows(vec![Some(vec![Some(4)]), None], 1);
    assert!(ca.row_at(0).is_some());
    assert!(ca.row_at(1).is_none());
}
