use array_core::arrayish::Arrayish;
use array_core::{Array, Byte};

fn byte_vec(values: &[u8]) -> Vec<Byte> {
    values.iter().map(|v| Byte::Value(*v)).collect()
}

fn byte_array(shape: &[usize], values: &[u8]) -> Array<Byte> {
    Array::new(shape.to_vec(), byte_vec(values))
}

fn couple(a: Array<Byte>, b: Array<Byte>) -> Result<Array<Byte>, String> {
    if a.shape != b.shape {
        return Err(format!("cannot couple shapes {:?} and {:?}", a.shape, b.shape));
    }
    let mut shape = vec![2];
    shape.extend(a.shape.iter().copied());
    let mut data = a.data;
    data.extend(b.data);
    Ok(Array { shape, data, fill: a.fill || b.fill })
}

fn join(a: Array<Byte>, row: Array<Byte>) -> Result<Array<Byte>, String> {
    if a.shape.is_empty() || a.shape[1..] != row.shape[..] {
        return Err(format!("cannot join shapes {:?} and {:?}", a.shape, row.shape));
    }
    let mut shape = a.shape;
    shape[0] += 1;
    let mut data = a.data;
    data.extend(row.data);
    Ok(Array { shape, data, fill: a.fill || row.fill })
}

#[test]
fn row_is_the_slice_of_its_index() {
    let a = byte_array(&[3, 2], &[1, 2, 3, 4, 5, 6]);
    assert_eq!(a.row(0), &byte_vec(&[1, 2])[..]);
    assert_eq!(a.row(1), &byte_vec(&[3, 4])[..]);
    assert_eq!(a.row(2), &byte_vec(&[5, 6])[..]);
    let s = Array::unit(Byte::Value(4));
    assert_eq!(s.row(0), &byte_vec(&[4])[..]);
}

#[test]
fn rows_come_in_index_order() {
    let a = byte_array(&[3, 2], &[1, 2, 3, 4, 5, 6]);
    let rows = a.rows();
    assert_eq!(rows.len(), 3);
    assert_eq!(&*rows[0], &byte_vec(&[1, 2])[..]);
    assert_eq!(&*rows[1], &byte_vec(&[3, 4])[..]);
    assert_eq!(&*rows[2], &byte_vec(&[5, 6])[..]);
    assert_eq!(rows[1].as_ref(), &byte_vec(&[3, 4])[..]);
    let back: Vec<Vec<Byte>> = rows.iter().rev().map(|r| r.to_vec()).collect();
    assert_eq!(back, vec![byte_vec(&[5, 6]), byte_vec(&[3, 4]), byte_vec(&[1, 2])]);
}

#[test]
fn rows_of_an_array_without_elements() {
    let a = byte_array(&[3, 0], &[]);
    let rows = a.rows();
    assert_eq!(rows.len(), 3);
    assert!(rows.iter().all(|r| r.is_empty()));
    let none = byte_array(&[0, 3], &[]);
    assert_eq!(none.rows().len(), 0);
}

#[test]
fn row_view_is_a_copy() {
    let a = byte_array(&[2, 2], &[1, 2, 3, 4]);
    let rows = a.rows();
    let first = rows[0];
    let again = first.clone();
    assert_eq!(&*first, &*again);
    assert_eq!(&*rows[0], &*first);
}

#[test]
fn into_rows_cuts_from_the_front() {
    let a = byte_array(&[2, 3], &[1, 2, 3, 4, 5, 6]);
    let rows = a.into_rows();
    assert_eq!(rows.len(), 2);
    assert_eq!(rows[0].shape, vec![3]);
    assert_eq!(rows[0].data, byte_vec(&[1, 2, 3]));
    assert_eq!(rows[1].shape, vec![3]);
    assert_eq!(rows[1].data, byte_vec(&[4, 5, 6]));
    assert!(!rows[0].fill);
}

#[test]
fn into_rows_gives_rows_the_default_fill() {
    let a = Array { shape: vec![2, 1], data: byte_vec(&[1, 2]), fill: true };
    let rows = a.into_rows();
    assert!(rows.iter().all(|r| !r.fill));
    let c = Array { shape: vec![2, 1], data: vec!['a', 'b'], fill: false };
    let rows = c.into_rows();
    assert!(rows.iter().all(|r| r.fill));
}

#[test]
fn into_rows_of_higher_rank() {
    let a = byte_array(&[2, 2, 2], &[1, 2, 3, 4, 5, 6, 7, 8]);
    let rows = a.into_rows();
    assert_eq!(rows.len(), 2);
    assert_eq!(rows[0].shape, vec![2, 2]);
    assert_eq!(rows[0].data, byte_vec(&[1, 2, 3, 4]));
    assert_eq!(rows[1].data, byte_vec(&[5, 6, 7, 8]));
}

#[test]
fn into_rows_of_a_list_gives_scalars() {
    let a = byte_array(&[3], &[7, 8, 9]);
    let rows = a.into_rows();
    assert_eq!(rows.len(), 3);
    for (i, row) in rows.iter().enumerate() {
        assert_eq!(row.rank(), 0);
        assert_eq!(row.data, byte_vec(&[7 + i as u8]));
    }
}

#[test]
fn into_rows_without_elements() {
    let a = byte_array(&[3, 0], &[]);
    let rows = a.into_rows();
    assert_eq!(rows.len(), 3);
    assert!(rows.iter().all(|r| r.shape == vec![0] && r.data.is_empty()));
    let none = byte_array(&[0, 4], &[]);
    assert!(none.into_rows().is_empty());
    assert!(byte_array(&[0, 4], &[]).into_rows_rev().is_empty());
}

#[test]
fn scalar_has_one_row_equal_to_itself() {
    let a = Array::unit(Byte::Value(5));
    assert_eq!(a.row_count(), 1);
    let whole = a.clone();
    let rows = a.into_rows();
    assert_eq!(rows.len(), 1);
    assert_eq!(rows[0].shape, whole.shape);
    assert_eq!(rows[0].data, whole.data);
    assert!(rows[0] == whole);
    let rev = whole.clone().into_rows_rev();
    assert_eq!(rev.len(), 1);
    assert!(rev[0] == whole);
}

#[test]
fn into_rows_rev_cuts_from_the_back() {
    let a = byte_array(&[3, 2], &[1, 2, 3, 4, 5, 6]);
    let rows = a.into_rows_rev();
    assert_eq!(rows.len(), 3);
    assert_eq!(rows[0].data, byte_vec(&[5, 6]));
    assert_eq!(rows[1].data, byte_vec(&[3, 4]));
    assert_eq!(rows[2].data, byte_vec(&[1, 2]));
    assert!(rows.iter().all(|r| r.shape == vec![2]));
}

#[test]
fn reversed_rows_are_the_rows_in_reverse() {
    let shapes: Vec<Vec<usize>> = vec![vec![], vec![4], vec![2, 3], vec![3, 0], vec![2, 2, 2], vec![1, 5]];
    for shape in shapes {
        let count: usize = shape.iter().product();
        let data: Vec<Byte> = (0..count).map(|i| Byte::Value(i as u8)).collect();
        let forward = Array::new(shape.clone(), data.clone()).into_rows();
        let mut backward = Array::new(shape.clone(), data).into_rows_rev();
        backward.reverse();
        assert_eq!(forward.len(), backward.len());
        for (f, b) in forward.iter().zip(&backward) {
            assert_eq!(f.shape, b.shape);
            assert_eq!(f.data, b.data);
            assert_eq!(f.fill, b.fill);
        }
    }
}

#[test]
fn rows_mut_writes_through() {
    let mut a = byte_array(&[2, 2], &[1, 2, 3, 4]);
    {
        let mut rows = a.rows_mut();
        assert_eq!(rows.len(), 2);
        assert_eq!(&*rows[1], &byte_vec(&[3, 4])[..]);
        rows[0][1] = Byte::Value(20);
        rows[1][0] = Byte::Fill;
    }
    assert_eq!(a.shape, vec![2, 2]);
    assert_eq!(a.data, vec![Byte::Value(1), Byte::Value(20), Byte::Fill, Byte::Value(4)]);
}

#[test]
fn rows_mut_of_a_scalar_and_of_nothing() {
    let mut s = Array::unit(Byte::Value(1));
    {
        let mut rows = s.rows_mut();
        assert_eq!(rows.len(), 1);
        rows[0][0] = Byte::Value(2);
    }
    assert_eq!(s.data, byte_vec(&[2]));
    let mut none = byte_array(&[0, 3], &[]);
    assert_eq!(none.rows_mut().len(), 0);
}

#[test]
fn from_no_rows() {
    let a = Array::<Byte>::from_row_arrays(Vec::new(), false, couple, join).unwrap();
    assert_eq!(a.shape, vec![0]);
    assert!(a.data.is_empty());
    assert!(!a.fill);
    let filled = Array::<Byte>::from_row_arrays(Vec::new(), true, couple, join).unwrap();
    assert_eq!(filled.shape, vec![0]);
    assert!(!filled.fill);
}

#[test]
fn from_one_row() {
    let row_a = byte_array(&[3], &[1, 2, 3]);
    let a = Array::from_row_arrays(vec![row_a], false, couple, join).unwrap();
    assert_eq!(a.shape, vec![1, 3]);
    assert_eq!(a.data, byte_vec(&[1, 2, 3]));
    assert!(!a.fill);
    assert!(a.validate_shape());
}

#[test]
fn from_one_row_keeps_its_fill_flag() {
    let row_a = byte_array(&[3], &[1, 2, 3]);
    let a = Array::from_row_arrays(vec![row_a], true, couple, join).unwrap();
    assert_eq!(a.shape, vec![1, 3]);
    assert!(!a.fill);
    let scalar = Array::from_row_arrays(vec![Array::unit(Byte::Value(1))], false, couple, join).unwrap();
    assert_eq!(scalar.shape, vec![1]);
}

#[test]
fn from_two_rows_with_fill() {
    let row_a = byte_array(&[3], &[1, 2, 3]);
    let row_b = byte_array(&[3], &[4, 5, 6]);
    let a = Array::from_row_arrays(vec![row_a, row_b], true, couple, join).unwrap();
    assert_eq!(a.shape, vec![2, 3]);
    assert_eq!(a.data, byte_vec(&[1, 2, 3, 4, 5, 6]));
    assert!(a.fill);
}

#[test]
fn from_two_rows_without_fill() {
    let row_a = byte_array(&[3], &[1, 2, 3]);
    let row_b = byte_array(&[3], &[4, 5, 6]);
    let a = Array::from_row_arrays(vec![row_a, row_b], false, couple, join).unwrap();
    assert_eq!(a.shape, vec![2, 3]);
    assert!(!a.fill);
}

#[test]
fn first_row_is_handed_over_unmarked() {
    let seen = std::cell::RefCell::new(Vec::new());
    let spy_couple = |a: Array<Byte>, b: Array<Byte>| {
        seen.borrow_mut().push((a.fill, b.fill));
        couple(a, b)
    };
    let spy_join = |a: Array<Byte>, b: Array<Byte>| {
        seen.borrow_mut().push((a.fill, b.fill));
        join(a, b)
    };
    let rows = vec![byte_array(&[1], &[1]), byte_array(&[1], &[2]), byte_array(&[1], &[3])];
    let a = Array::from_row_arrays(rows, true, spy_couple, spy_join).unwrap();
    assert_eq!(a.shape, vec![3, 1]);
    assert_eq!(*seen.borrow(), vec![(false, true), (true, true)]);
}

#[test]
fn couple_comes_once_and_join_for_the_rest() {
    let calls = std::cell::RefCell::new(Vec::new());
    let count_couple = |a: Array<Byte>, b: Array<Byte>| {
        calls.borrow_mut().push("couple");
        couple(a, b)
    };
    let count_join = |a: Array<Byte>, b: Array<Byte>| {
        calls.borrow_mut().push("join");
        join(a, b)
    };
    let rows: Vec<Array<Byte>> = (0..4).map(|i| byte_array(&[2], &[i, i + 10])).collect();
    let a = Array::from_row_arrays(rows, false, count_couple, count_join).unwrap();
    assert_eq!(a.shape, vec![4, 2]);
    assert_eq!(a.data, byte_vec(&[0, 10, 1, 11, 2, 12, 3, 13]));
    assert_eq!(*calls.borrow(), vec!["couple", "join", "join"]);
}

#[test]
fn failure_of_couple_comes_back() {
    let rows = vec![byte_array(&[2], &[1, 2]), byte_array(&[3], &[1, 2, 3])];
    let r = Array::from_row_arrays(rows, false, couple, join);
    assert_eq!(r.err(), Some(String::from("cannot couple shapes [2] and [3]")));
}

#[test]
fn failure_of_join_comes_back_and_ends_the_work() {
    let joins = std::cell::Cell::new(0);
    let counting_join = |a: Array<Byte>, b: Array<Byte>| {
        joins.set(joins.get() + 1);
        join(a, b)
    };
    let rows = vec![
        byte_array(&[2], &[1, 2]),
        byte_array(&[2], &[3, 4]),
        byte_array(&[3], &[5, 6, 7]),
        byte_array(&[2], &[8, 9]),
    ];
    let r = Array::from_row_arrays(rows, false, couple, counting_join);
    assert_eq!(r.err(), Some(String::from("cannot join shapes [2, 2] and [3]")));
    assert_eq!(joins.get(), 1);
}

#[test]
fn rebuilding_from_rows_gives_the_array_back() {
    let shapes: Vec<Vec<usize>> = vec![vec![0], vec![1], vec![4], vec![1, 3], vec![2, 3], vec![3, 2, 2], vec![2, 0]];
    for shape in shapes {
        let count: usize = shape.iter().product();
        let data: Vec<Byte> = (0..count).map(|i| Byte::Value(i as u8)).collect();
        let rows = Array::new(shape.clone(), data.clone()).into_rows();
        let back = Array::from_row_arrays(rows, false, couple, join).unwrap();
        assert_eq!(back.shape, shape);
        assert_eq!(back.data, data);
    }
}

#[test]
fn rebuilding_a_table_without_rows_gives_the_empty_list() {
    let rows = byte_array(&[0, 3], &[]).into_rows();
    let back = Array::from_row_arrays(rows, false, couple, join).unwrap();
    assert_eq!(back.shape, vec![0]);
}
