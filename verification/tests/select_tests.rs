//! The constant-time selector and the constant-time comparison.

use ml_kem::bytes_equal_ct;
use ml_kem::select_bytes;
use ml_kem::MlKemError;

#[test]
fn select_true_returns_second() {
    let a = vec![1u8, 2, 3, 4];
    let b = vec![9u8, 8, 7, 6];
    assert_eq!(select_bytes(&a, &b, true).unwrap(), b);
}

#[test]
fn select_false_returns_first() {
    let a = vec![1u8, 2, 3, 4];
    let b = vec![9u8, 8, 7, 6];
    assert_eq!(select_bytes(&a, &b, false).unwrap(), a);
}

#[test]
fn select_rejects_length_mismatch() {
    let a = vec![1u8, 2, 3];
    let b = vec![9u8, 8];
    assert_eq!(select_bytes(&a, &b, true).unwrap_err(), MlKemError::LengthMismatch);
}

#[test]
fn select_empty_strings() {
    let a: Vec<u8> = vec![];
    let b: Vec<u8> = vec![];
    assert_eq!(select_bytes(&a, &b, true).unwrap(), Vec::<u8>::new());
}

#[test]
fn constant_time_equality() {
    assert!(bytes_equal_ct(&[1, 2, 3], &[1, 2, 3]));
    assert!(!bytes_equal_ct(&[1, 2, 3], &[1, 2, 4]));
    assert!(!bytes_equal_ct(&[1, 2, 3], &[1, 2]));
    assert!(bytes_equal_ct(&[], &[]));
}
