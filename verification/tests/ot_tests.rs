//! Tests for the operational-transformation primitives and cursor mapping.

use operational_transform::OperationSeq;
use rustpad_server::ot::{compose, transform, transform_index};

fn op(parts: &[(&str, u64)]) -> OperationSeq {
    let mut o = OperationSeq::default();
    for (kind, n) in parts {
        match *kind {
            "retain" => o.retain(*n),
            "delete" => o.delete(*n),
            _ => unreachable!(),
        }
    }
    o
}

#[test]
fn transform_index_insert_before_cursor() {
    // Inserting two characters at the front shifts a cursor at offset 5 to 7.
    let mut o = OperationSeq::default();
    o.insert("XX");
    o.retain(5);
    assert_eq!(transform_index(&o, 5), 7);
    assert_eq!(transform_index(&o, 0), 2);
}

#[test]
fn transform_index_insert_at_cursor_moves_right() {
    // An index exactly at the insert point moves right with the insert.
    let mut o = OperationSeq::default();
    o.retain(3);
    o.insert("ab");
    assert_eq!(transform_index(&o, 3), 5);
    assert_eq!(transform_index(&o, 2), 2);
}

#[test]
fn transform_index_delete_clamps_into_run_start() {
    // Deleting offsets 2..5 clamps any cursor inside that run to offset 2.
    let o = op(&[("retain", 2), ("delete", 3)]);
    assert_eq!(transform_index(&o, 4), 2);
    assert_eq!(transform_index(&o, 2), 2);
    assert_eq!(transform_index(&o, 5), 2);
    assert_eq!(transform_index(&o, 1), 1);
}

#[test]
fn transform_index_after_delete_shifts_left() {
    let o = op(&[("retain", 1), ("delete", 2), ("retain", 3)]);
    assert_eq!(transform_index(&o, 5), 3);
}

#[test]
fn transform_converges_on_concurrent_inserts() {
    // Two concurrent edits of "ab": both orders of application agree.
    let s = "ab";
    let mut a = OperationSeq::default();
    a.retain(1);
    a.insert("X");
    a.retain(1);
    let mut b = OperationSeq::default();
    b.retain(2);
    b.insert("Y");
    let (a_prime, b_prime) = transform(&a, &b).unwrap();
    let via_a = b_prime.apply(&a.apply(s).unwrap()).unwrap();
    let via_b = a_prime.apply(&b.apply(s).unwrap()).unwrap();
    assert_eq!(via_a, via_b);
    assert_eq!(via_a, "aXbY");
}

#[test]
fn transform_converges_on_insert_tie() {
    // Both sides insert at the same offset; the orders still converge.
    let s = "ab";
    let mut a = OperationSeq::default();
    a.retain(1);
    a.insert("X");
    a.retain(1);
    let mut b = OperationSeq::default();
    b.retain(1);
    b.insert("Y");
    b.retain(1);
    let (a_prime, b_prime) = transform(&a, &b).unwrap();
    let via_a = b_prime.apply(&a.apply(s).unwrap()).unwrap();
    let via_b = a_prime.apply(&b.apply(s).unwrap()).unwrap();
    assert_eq!(via_a, via_b);
    // The left operand's insert precedes on a tie.
    assert_eq!(via_a, "aXYb");
}

#[test]
fn transform_rejects_mismatched_base_lengths() {
    let mut a = OperationSeq::default();
    a.retain(2);
    let mut b = OperationSeq::default();
    b.retain(3);
    assert!(transform(&a, &b).is_err());
}

#[test]
fn compose_matches_sequential_application() {
    let s = "hello";
    let mut a = OperationSeq::default();
    a.retain(5);
    a.insert(" world");
    let mut b = OperationSeq::default();
    b.delete(1);
    b.insert("H");
    b.retain(10);
    let c = compose(&a, &b).unwrap();
    let sequential = b.apply(&a.apply(s).unwrap()).unwrap();
    assert_eq!(c.apply(s).unwrap(), sequential);
    assert_eq!(sequential, "Hello world");
}

#[test]
fn compose_rejects_mismatched_lengths() {
    let mut a = OperationSeq::default();
    a.insert("ab");
    let mut b = OperationSeq::default();
    b.retain(5);
    assert!(compose(&a, &b).is_err());
}
