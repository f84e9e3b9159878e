use array_core::{ArrayValue, Byte};
use std::cmp::Ordering;

#[test]
fn characters_are_ordered_by_code_point() {
    assert_eq!(ArrayValue::cmp(&'a', &'b'), Ordering::Less);
    assert_eq!(ArrayValue::cmp(&'b', &'a'), Ordering::Greater);
    assert_eq!(ArrayValue::cmp(&'a', &'a'), Ordering::Equal);
    assert_eq!(ArrayValue::cmp(&'\0', &'a'), Ordering::Less);
    assert_eq!(ArrayValue::cmp(&'z', &'é'), Ordering::Less);
    assert!(ArrayValue::eq(&'q', &'q'));
    assert!(!ArrayValue::eq(&'q', &'r'));
}

#[test]
fn null_is_the_fill_character() {
    assert_eq!(<char as ArrayValue>::fill_value(), '\0');
    assert!('\0'.is_fill_value());
    assert!(!'0'.is_fill_value());
    assert!(!' '.is_fill_value());
}

#[test]
fn character_kind() {
    assert_eq!(<char as ArrayValue>::NAME, "character");
    assert!(<char as ArrayValue>::DEFAULT_FILL);
    assert_eq!(<char as ArrayValue>::format_delims(), ("", ""));
    assert_eq!(<char as ArrayValue>::format_sep(), "");
    assert_eq!('x'.render(), "x");
    assert_eq!('é'.render(), "é");
}

#[test]
fn bytes_are_ordered_by_number_with_fill_last() {
    assert_eq!(ArrayValue::cmp(&Byte::Value(1), &Byte::Value(2)), Ordering::Less);
    assert_eq!(ArrayValue::cmp(&Byte::Value(2), &Byte::Value(1)), Ordering::Greater);
    assert_eq!(ArrayValue::cmp(&Byte::Value(7), &Byte::Value(7)), Ordering::Equal);
    assert_eq!(ArrayValue::cmp(&Byte::Value(255), &Byte::Fill), Ordering::Less);
    assert_eq!(ArrayValue::cmp(&Byte::Fill, &Byte::Value(0)), Ordering::Greater);
    assert_eq!(ArrayValue::cmp(&Byte::Fill, &Byte::Fill), Ordering::Equal);
    assert!(ArrayValue::eq(&Byte::Fill, &Byte::Fill));
    assert!(!ArrayValue::eq(&Byte::Fill, &Byte::Value(0)));
}

#[test]
fn fill_byte() {
    assert_eq!(Byte::fill_value(), Byte::Fill);
    assert!(Byte::Fill.is_fill_value());
    assert!(!Byte::Value(0).is_fill_value());
    assert!(!Byte::Value(255).is_fill_value());
}

#[test]
fn byte_kind() {
    assert_eq!(Byte::NAME, "byte");
    assert!(!Byte::DEFAULT_FILL);
    assert_eq!(Byte::format_delims(), ("[", "]"));
    assert_eq!(Byte::format_sep(), " ");
    assert_eq!(Byte::Value(0).render(), "0");
    assert_eq!(Byte::Value(9).render(), "9");
    assert_eq!(Byte::Value(10).render(), "10");
    assert_eq!(Byte::Value(255).render(), "255");
    assert_eq!(Byte::Fill.render(), "_");
}

#[test]
fn byte_from_number() {
    assert_eq!(Byte::from(3u8), Byte::Value(3));
    let b: Byte = 200u8.into();
    assert_eq!(b, Byte::Value(200));
}

#[test]
fn byte_order_is_the_order_of_the_type() {
    let mut all: Vec<Byte> = (0..=255u8).map(Byte::Value).collect();
    all.push(Byte::Fill);
    for a in &all {
        for b in &all {
            assert_eq!(ArrayValue::cmp(a, b), Ord::cmp(a, b));
            assert_eq!(ArrayValue::eq(a, b), a == b);
        }
    }
}

#[test]
fn character_order_is_the_order_of_the_type() {
    let all = ['\0', ' ', '0', 'A', 'a', 'z', 'é', '\u{d7ff}', '\u{e000}', '\u{10ffff}'];
    for a in &all {
        for b in &all {
            assert_eq!(ArrayValue::cmp(a, b), Ord::cmp(a, b));
        }
    }
}
