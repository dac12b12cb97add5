use four_numbers::text::push_decimal;

fn decimal(n: i64) -> String {
    let mut out = String::new();
    push_decimal(n, &mut out);
    out
}

#[test]
fn push_decimal_writes_single_digits() {
    for (n, text) in [(0, "0"), (1, "1"), (5, "5"), (9, "9")] {
        assert_eq!(decimal(n), text);
    }
}

#[test]
fn push_decimal_writes_several_digits() {
    assert_eq!(decimal(10), "10");
    assert_eq!(decimal(42), "42");
    assert_eq!(decimal(1000), "1000");
    assert_eq!(decimal(9876543210), "9876543210");
}

#[test]
fn push_decimal_writes_a_sign_for_negative_numbers() {
    assert_eq!(decimal(-1), "-1");
    assert_eq!(decimal(-10), "-10");
    assert_eq!(decimal(-305), "-305");
}

#[test]
fn push_decimal_writes_the_ends_of_the_range() {
    assert_eq!(decimal(i64::MAX), "9223372036854775807");
    assert_eq!(decimal(i64::MIN), "-9223372036854775808");
    assert_eq!(decimal(i64::MIN + 1), "-9223372036854775807");
}

#[test]
fn push_decimal_appends_to_what_is_there() {
    let mut out = String::from("corner ");
    push_decimal(17, &mut out);
    push_decimal(-4, &mut out);
    assert_eq!(out, "corner 17-4");
}

#[test]
fn push_decimal_agrees_with_the_standard_library() {
    let mut n: i64 = 1;
    for round in 0..2000u32 {
        assert_eq!(decimal(n), format!("{}", n));
        assert_eq!(decimal(n.wrapping_neg()), format!("{}", n.wrapping_neg()));
        n = n.wrapping_mul(6364136223846793005).wrapping_add(1442695040888963407);
        if round % 3 == 0 {
            n >>= round % 61;
        }
    }
}
