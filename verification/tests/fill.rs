use array_core::{Array, ArrayValue, Byte};

const F: Byte = Byte::Fill;

fn v(n: u8) -> Byte {
    Byte::Value(n)
}

fn filled(shape: &[usize], data: Vec<Byte>) -> Array<Byte> {
    Array { shape: shape.to_vec(), data, fill: true }
}

#[test]
fn len_of_a_list_stops_at_the_first_fill() {
    assert_eq!(filled(&[4], vec![v(1), v(2), F, F]).len(), 2);
    assert_eq!(filled(&[4], vec![v(1), F, v(3), F]).len(), 1);
    assert_eq!(filled(&[3], vec![F, v(2), v(3)]).len(), 0);
    assert_eq!(filled(&[3], vec![v(1), v(2), v(3)]).len(), 3);
    assert_eq!(filled(&[0], vec![]).len(), 0);
}

#[test]
fn len_of_a_list_does_not_ask_for_the_flag() {
    let a = Array { shape: vec![3], data: vec![v(1), F, F], fill: false };
    assert_eq!(a.len(), 1);
}

#[test]
fn len_of_other_ranks_is_the_row_count() {
    assert_eq!(filled(&[2, 2], vec![F, F, F, F]).len(), 2);
    assert_eq!(filled(&[], vec![F]).len(), 1);
    assert_eq!(filled(&[0, 5], vec![]).len(), 0);
}

#[test]
fn truncate_takes_fill_rows_off_the_end() {
    let mut a = filled(&[4, 2], vec![v(1), v(2), v(3), F, F, F, F, F]);
    a.truncate();
    assert_eq!(a.shape, vec![2, 2]);
    assert_eq!(a.data, vec![v(1), v(2), v(3), F]);
    assert!(a.fill);
    assert!(a.validate_shape());
}

#[test]
fn truncate_stops_at_a_row_with_one_value() {
    let mut a = filled(&[3, 2], vec![F, F, F, v(1), F, F]);
    a.truncate();
    assert_eq!(a.shape, vec![2, 2]);
    assert_eq!(a.data, vec![F, F, F, v(1)]);
}

#[test]
fn truncate_keeps_fill_rows_before_a_kept_row() {
    let mut a = filled(&[3, 1], vec![F, v(1), F]);
    a.truncate();
    assert_eq!(a.shape, vec![2, 1]);
    assert_eq!(a.data, vec![F, v(1)]);
}

#[test]
fn truncate_of_a_list() {
    let mut a = filled(&[5], vec![v(1), F, v(3), F, F]);
    a.truncate();
    assert_eq!(a.shape, vec![3]);
    assert_eq!(a.data, vec![v(1), F, v(3)]);
}

#[test]
fn truncate_may_leave_nothing() {
    let mut a = filled(&[2, 2], vec![F, F, F, F]);
    a.truncate();
    assert_eq!(a.shape, vec![0, 2]);
    assert!(a.data.is_empty());
    assert!(a.validate_shape());
}

#[test]
fn truncate_without_the_flag_does_nothing() {
    let mut a = Array { shape: vec![2, 1], data: vec![v(1), F], fill: false };
    a.truncate();
    assert_eq!(a.shape, vec![2, 1]);
    assert_eq!(a.data, vec![v(1), F]);
}

#[test]
fn truncate_of_a_scalar_does_nothing() {
    let mut a = filled(&[], vec![F]);
    a.truncate();
    assert_eq!(a.shape, Vec::<usize>::new());
    assert_eq!(a.data, vec![F]);
}

#[test]
fn truncate_of_rows_without_elements_takes_them_all() {
    let mut a = filled(&[3, 0], vec![]);
    a.truncate();
    assert_eq!(a.shape, vec![0, 0]);
    let mut none = filled(&[0, 2], vec![]);
    none.truncate();
    assert_eq!(none.shape, vec![0, 2]);
}

#[test]
fn truncate_of_text() {
    let mut a = Array::from_lines(vec![String::from("ab"), String::new(), String::new()]);
    a.truncate();
    assert_eq!(a.shape, vec![1, 2]);
    assert_eq!(a.data, vec!['a', 'b']);
}

#[test]
fn truncate_twice_is_truncate_once() {
    let cases: Vec<(Vec<usize>, Vec<Byte>)> = vec![
        (vec![4, 2], vec![v(1), v(2), v(3), F, F, F, F, F]),
        (vec![3, 1], vec![F, v(1), F]),
        (vec![2, 2], vec![F, F, F, F]),
        (vec![5], vec![v(1), F, v(3), F, F]),
        (vec![2, 2], vec![v(1), v(2), v(3), v(4)]),
        (vec![], vec![F]),
        (vec![0], vec![]),
    ];
    for (shape, data) in cases {
        let mut once = filled(&shape, data);
        once.truncate();
        let mut twice = once.clone();
        twice.truncate();
        assert_eq!(twice.shape, once.shape);
        assert_eq!(twice.data, once.data);
        assert_eq!(twice.fill, once.fill);
    }
}

#[test]
fn padded_list_equals_itself_built_apart() {
    let a = filled(&[3], vec![v(1), v(2), F]);
    let mut data = vec![v(1), v(2)];
    while data.len() < 3 {
        data.push(Byte::fill_value());
    }
    let b = filled(&[3], data);
    assert!(a == b);
    assert!(b == a);
}

#[test]
fn equality_looks_past_trailing_fill() {
    let a = filled(&[4], vec![v(1), v(2), F, F]);
    let b = filled(&[4], vec![v(1), v(2), F, v(9)]);
    assert!(a == b);
    let c = filled(&[4], vec![v(1), v(3), F, F]);
    assert!(a != c);
}

#[test]
fn equality_compares_as_far_as_the_shorter_run() {
    let a = filled(&[3], vec![v(1), v(2), F]);
    let b = filled(&[3], vec![v(1), F, F]);
    assert!(a == b);
    let c = filled(&[3], vec![F, F, F]);
    assert!(a == c);
}

#[test]
fn equality_skips_leading_fill() {
    let a = filled(&[3], vec![F, v(1), v(2)]);
    let b = filled(&[3], vec![v(1), v(2), F]);
    assert!(a == b);
}

#[test]
fn interior_fill_ends_the_compared_run() {
    let a = filled(&[3], vec![v(1), F, v(3)]);
    let b = filled(&[3], vec![v(1), F, v(4)]);
    assert!(a == b);
    let plain = Array { shape: vec![2], data: vec![v(1), v(3)], fill: true };
    assert!(a != plain);
    let packed = filled(&[3], vec![v(1), v(3), F]);
    assert!(a == packed);
    let other = filled(&[3], vec![v(1), v(4), F]);
    assert!(a == other);
    assert!(packed != other);
    let c = filled(&[3], vec![v(2), F, v(3)]);
    assert!(a != c);
}

#[test]
fn different_shapes_are_never_equal() {
    let a = filled(&[2, 2], vec![F, F, F, F]);
    let b = filled(&[4], vec![F, F, F, F]);
    assert!(a != b);
    let c = filled(&[1, 4], vec![F, F, F, F]);
    assert!(a != c);
    assert!(a == filled(&[2, 2], vec![F, F, F, F]));
}

#[test]
fn equality_does_not_ask_for_the_flag() {
    let a = Array { shape: vec![2], data: vec![v(1), F], fill: false };
    let b = Array { shape: vec![2], data: vec![v(1), v(2)], fill: true };
    assert!(a == b);
}

#[test]
fn equality_of_text() {
    let a = Array::from(String::from("ab\0"));
    let b = Array::from(String::from("ab\0"));
    let c = Array::from(String::from("ac\0"));
    assert!(a == b);
    assert!(a != c);
}
