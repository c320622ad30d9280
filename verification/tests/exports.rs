use abi_bridge::exports::{self, cornucopia, fact, is_prime, neg32, not, Cornucopia};
use abi_bridge::value::Value;

#[test]
fn add_sums_two_integers() {
    assert_eq!(exports::add(2, 3), 5);
    assert_eq!(exports::add(-7, 7), 0);
    assert_eq!(exports::add(i64::MAX, i64::MIN), -1);
}

#[test]
fn not_negates() {
    assert_eq!(not(true), false);
    assert_eq!(not(false), true);
}

#[test]
fn is_prime_tells_primes() {
    assert_eq!(is_prime(7), true);
    assert_eq!(is_prime(8), false);
    assert_eq!(is_prime(2), true);
    assert_eq!(is_prime(9), false);
    assert_eq!(is_prime(97), true);
}

#[test]
fn is_prime_passes_zero_and_one() {
    assert_eq!(is_prime(0), true);
    assert_eq!(is_prime(1), true);
}

#[test]
fn fact_multiplies_up() {
    assert_eq!(fact(1), 1);
    assert_eq!(fact(5), 120);
    assert_eq!(fact(10), 3628800);
    assert_eq!(fact(20), 2432902008176640000);
}

#[test]
fn neg32_negates() {
    assert_eq!(neg32(5), -5);
    assert_eq!(neg32(-5), 5);
    assert_eq!(neg32(0), 0);
    assert_eq!(neg32(i32::MAX), i32::MIN + 1);
}

#[test]
fn cornucopia_answers_42_when_set() {
    assert_eq!(cornucopia(&Cornucopia { b: true, n0: 1, n1: 2, n2: 3 }), 42);
    assert_eq!(cornucopia(&Cornucopia { b: true, n0: -9, n1: 200, n2: i64::MAX }), 42);
}

#[test]
fn cornucopia_sums_when_not_set() {
    assert_eq!(cornucopia(&Cornucopia { b: false, n0: 1, n1: 2, n2: 3 }), 6);
    assert_eq!(cornucopia(&Cornucopia { b: false, n0: -300, n1: 255, n2: 45 }), 0);
}

#[test]
fn cornucopia_converts_to_a_value_and_back() {
    let x = Cornucopia { b: false, n0: -2, n1: 9, n2: -77 };
    let value = x.to_value();
    assert_eq!(
        value,
        Value::Struct(vec![Value::Bool(false), Value::I16(-2), Value::U8(9), Value::I64(-77)])
    );
    assert_eq!(Cornucopia::from_value(&value), Some(x));
}

#[test]
fn cornucopia_is_not_read_from_another_shape() {
    assert_eq!(Cornucopia::from_value(&Value::I64(3)), None);
    let short = Value::Struct(vec![Value::Bool(false), Value::I16(-2), Value::U8(9)]);
    assert_eq!(Cornucopia::from_value(&short), None);
    let wrong = Value::Struct(vec![
        Value::Bool(false),
        Value::U16(2),
        Value::U8(9),
        Value::I64(-77),
    ]);
    assert_eq!(Cornucopia::from_value(&wrong), None);
}
