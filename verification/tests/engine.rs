use txstore::predicate::{Op, Predicate};
use txstore::store::{expect, Relation, Validator};

fn pred(column: u32, op: Op, value: u64) -> Predicate {
    Predicate { column, op, value }
}

#[test]
fn single_insert_matching_predicate_violates() {
    let mut v = Validator::new();
    v.define_schema(&vec![2u32]);
    v.transaction(1, &vec![], &vec![(0u32, vec![vec![10u64, 100u64]])]);
    v.validate(1, 1, 1, &vec![(0u32, vec![pred(1, Op::Equal, 100)])]);
    let out = v.flush(1);
    assert_eq!(out, vec![b'1']);
}

#[test]
fn single_insert_unmatched_predicate_clears() {
    let mut v = Validator::new();
    v.define_schema(&vec![2u32]);
    v.transaction(1, &vec![], &vec![(0u32, vec![vec![10u64, 100u64]])]);
    v.validate(2, 1, 1, &vec![(0u32, vec![pred(1, Op::Equal, 999)])]);
    let out = v.flush(2);
    assert_eq!(out, vec![b'0']);
}

#[test]
fn zero_predicates_see_history_stamps_only() {
    let mut v = Validator::new();
    v.define_schema(&vec![2u32]);
    v.transaction(1, &vec![], &vec![(0u32, vec![vec![10u64, 100u64]])]);
    v.transaction(2, &vec![(0u32, vec![10u64])], &vec![]);
    v.validate(3, 1, 1, &vec![(0u32, vec![])]);
    v.validate(4, 3, 3, &vec![(0u32, vec![])]);
    let out = v.flush(4);
    assert_eq!(out, vec![b'1', b'0']);
}

#[test]
fn delete_then_insert_same_key_in_one_transaction() {
    let mut v = Validator::new();
    v.define_schema(&vec![2u32]);
    v.transaction(1, &vec![], &vec![(0u32, vec![vec![10u64, 100u64]])]);
    v.transaction(
        5,
        &vec![(0u32, vec![10u64])],
        &vec![(0u32, vec![vec![10u64, 777u64]])],
    );
    assert_eq!(v.relations[0].inserted.len(), 1);
    assert_eq!(v.relations[0].inserted[0].columns, vec![10u64, 777u64]);
    assert_eq!(v.relations[0].inserted[0].stamp, 5);
}

#[test]
fn insert_delete_round_trip_leaves_two_tombstones() {
    let mut v = Validator::new();
    v.define_schema(&vec![2u32]);
    v.transaction(1, &vec![], &vec![(0u32, vec![vec![10u64, 100u64]])]);
    v.transaction(2, &vec![(0u32, vec![10u64])], &vec![]);
    assert_eq!(v.relations[0].inserted.len(), 0);
    assert_eq!(v.relations[0].deleted.len(), 2);
    assert_eq!(v.relations[0].deleted[0].columns, vec![10u64, 100u64]);
    assert_eq!(v.relations[0].deleted[0].stamp, 1);
    assert_eq!(v.relations[0].deleted[1].columns, vec![10u64, 100u64]);
    assert_eq!(v.relations[0].deleted[1].stamp, 2);
}

#[test]
fn insert_overwrites_live_row_without_tombstone() {
    let mut v = Validator::new();
    v.define_schema(&vec![2u32]);
    v.transaction(1, &vec![], &vec![(0u32, vec![vec![10u64, 100u64]])]);
    v.transaction(2, &vec![], &vec![(0u32, vec![vec![10u64, 200u64]])]);
    assert_eq!(v.relations[0].inserted.len(), 1);
    assert_eq!(v.relations[0].inserted[0].columns, vec![10u64, 200u64]);
    assert_eq!(v.relations[0].inserted[0].stamp, 2);
    assert_eq!(v.relations[0].deleted.len(), 0);
}

#[test]
fn deleting_absent_key_is_a_no_op() {
    let mut v = Validator::new();
    v.define_schema(&vec![2u32]);
    v.transaction(1, &vec![(0u32, vec![42u64])], &vec![]);
    assert_eq!(v.relations[0].inserted.len(), 0);
    assert_eq!(v.relations[0].deleted.len(), 0);
}

#[test]
fn widening_the_range_can_only_lose_clearance() {
    let mut v = Validator::new();
    v.define_schema(&vec![2u32]);
    v.transaction(2, &vec![], &vec![(0u32, vec![vec![10u64, 100u64]])]);
    v.validate(1, 3, 3, &vec![(0u32, vec![])]);
    v.validate(2, 3, 5, &vec![(0u32, vec![])]);
    v.validate(3, 1, 3, &vec![(0u32, vec![])]);
    let out = v.flush(3);
    assert_eq!(out, vec![b'0', b'0', b'1']);
}

#[test]
fn release_is_idempotent() {
    let mut v = Validator::new();
    v.define_schema(&vec![2u32]);
    v.transaction(1, &vec![], &vec![(0u32, vec![vec![10u64, 100u64]])]);
    v.validate(1, 1, 1, &vec![(0u32, vec![])]);
    let first = v.flush(1);
    assert_eq!(first, vec![b'1']);
    let second = v.flush(1);
    assert_eq!(second, Vec::<u8>::new());
}

#[test]
fn release_emits_in_arrival_order_and_keeps_later_ids() {
    let mut v = Validator::new();
    v.define_schema(&vec![2u32]);
    v.transaction(1, &vec![], &vec![(0u32, vec![vec![10u64, 100u64]])]);
    v.validate(5, 1, 1, &vec![(0u32, vec![])]);
    v.validate(3, 9, 9, &vec![(0u32, vec![])]);
    v.validate(7, 1, 1, &vec![(0u32, vec![])]);
    let out = v.flush(5);
    assert_eq!(out, vec![b'1', b'0']);
    assert_eq!(v.validations, vec![(7u64, false)]);
    let rest = v.flush(7);
    assert_eq!(rest, vec![b'1']);
}

#[test]
fn every_operator_compares_as_documented() {
    let mut v = Validator::new();
    v.define_schema(&vec![2u32]);
    v.transaction(1, &vec![], &vec![(0u32, vec![vec![10u64, 100u64]])]);
    assert!(!v.validate_predicates(1, 1, 0, &vec![pred(1, Op::Equal, 100)]));
    assert!(v.validate_predicates(1, 1, 0, &vec![pred(1, Op::Equal, 99)]));
    assert!(!v.validate_predicates(1, 1, 0, &vec![pred(1, Op::NotEqual, 99)]));
    assert!(v.validate_predicates(1, 1, 0, &vec![pred(1, Op::NotEqual, 100)]));
    assert!(!v.validate_predicates(1, 1, 0, &vec![pred(1, Op::Less, 101)]));
    assert!(v.validate_predicates(1, 1, 0, &vec![pred(1, Op::Less, 100)]));
    assert!(!v.validate_predicates(1, 1, 0, &vec![pred(1, Op::LessEq, 100)]));
    assert!(v.validate_predicates(1, 1, 0, &vec![pred(1, Op::LessEq, 99)]));
    assert!(!v.validate_predicates(1, 1, 0, &vec![pred(1, Op::Greater, 99)]));
    assert!(v.validate_predicates(1, 1, 0, &vec![pred(1, Op::Greater, 100)]));
    assert!(!v.validate_predicates(1, 1, 0, &vec![pred(1, Op::GreaterEq, 100)]));
    assert!(v.validate_predicates(1, 1, 0, &vec![pred(1, Op::GreaterEq, 101)]));
    assert!(!v.validate_predicates(1, 1, 0, &vec![pred(0, Op::Always, 0)]));
}

#[test]
fn conjunction_needs_every_predicate() {
    let mut v = Validator::new();
    v.define_schema(&vec![3u32]);
    v.transaction(1, &vec![], &vec![(0u32, vec![vec![1u64, 2u64, 3u64]])]);
    assert!(!v.validate_predicates(
        1,
        1,
        0,
        &vec![pred(1, Op::Equal, 2), pred(2, Op::Equal, 3)]
    ));
    assert!(v.validate_predicates(
        1,
        1,
        0,
        &vec![pred(1, Op::Equal, 2), pred(2, Op::Equal, 999)]
    ));
}

#[test]
fn operator_codes_follow_the_wire_order() {
    assert_eq!(Op::from_code(0), Some(Op::Equal));
    assert_eq!(Op::from_code(1), Some(Op::NotEqual));
    assert_eq!(Op::from_code(2), Some(Op::Less));
    assert_eq!(Op::from_code(3), Some(Op::LessEq));
    assert_eq!(Op::from_code(4), Some(Op::Greater));
    assert_eq!(Op::from_code(5), Some(Op::GreaterEq));
    assert_eq!(Op::from_code(6), Some(Op::Always));
    assert_eq!(Op::from_code(7), None);
    assert_eq!(Op::from_code(u32::MAX), None);
}

#[test]
fn retention_mark_never_decreases_and_prunes_history() {
    let mut v = Validator::new();
    v.define_schema(&vec![2u32]);
    v.transaction(1, &vec![], &vec![(0u32, vec![vec![10u64, 100u64]])]);
    v.transaction(2, &vec![(0u32, vec![10u64])], &vec![]);
    v.transaction(3, &vec![], &vec![(0u32, vec![vec![20u64, 200u64]])]);
    v.transaction(4, &vec![(0u32, vec![20u64])], &vec![]);
    assert_eq!(v.relations[0].deleted.len(), 4);
    v.forget(2);
    assert_eq!(v.last_forget, 2);
    assert_eq!(v.relations[0].deleted.len(), 2);
    assert_eq!(v.relations[0].deleted[0].stamp, 3);
    assert_eq!(v.relations[0].deleted[1].stamp, 4);
    v.forget(1);
    assert_eq!(v.last_forget, 2);
    assert_eq!(v.relations[0].deleted.len(), 2);
}

#[test]
fn pruning_keeps_validations_above_the_mark_unchanged() {
    let mut v = Validator::new();
    v.define_schema(&vec![2u32]);
    v.transaction(1, &vec![], &vec![(0u32, vec![vec![10u64, 100u64]])]);
    v.transaction(2, &vec![(0u32, vec![10u64])], &vec![]);
    v.transaction(3, &vec![], &vec![(0u32, vec![vec![30u64, 300u64]])]);
    v.validate(1, 3, 4, &vec![(0u32, vec![])]);
    v.forget(2);
    v.validate(2, 3, 4, &vec![(0u32, vec![])]);
    let out = v.flush(2);
    assert_eq!(out, vec![b'1', b'1']);
}

#[test]
fn schema_definition_replaces_relations_and_keeps_queue() {
    let mut v = Validator::new();
    v.define_schema(&vec![2u32]);
    v.transaction(1, &vec![], &vec![(0u32, vec![vec![10u64, 100u64]])]);
    v.validate(1, 1, 1, &vec![(0u32, vec![])]);
    v.define_schema(&vec![3u32, 1u32]);
    assert_eq!(v.relations.len(), 2);
    assert_eq!(v.relations[0].columns, 3);
    assert_eq!(v.relations[1].columns, 1);
    assert_eq!(v.relations[0].inserted.len(), 0);
    assert_eq!(v.validations, vec![(1u64, false)]);
}

#[test]
fn relation_starts_empty() {
    let r = Relation::new(4);
    assert_eq!(r.columns, 4);
    assert_eq!(r.inserted.len(), 0);
    assert_eq!(r.deleted.len(), 0);
}

#[test]
fn expect_unwraps_a_present_value() {
    let r: Result<u64, ()> = Ok(17);
    assert_eq!(expect(r), 17);
}

#[test]
fn deletions_of_a_transaction_run_before_its_insertions() {
    let mut v = Validator::new();
    v.define_schema(&vec![2u32]);
    v.transaction(1, &vec![], &vec![(0u32, vec![vec![10u64, 100u64]])]);
    v.transaction(
        7,
        &vec![(0u32, vec![10u64])],
        &vec![(0u32, vec![vec![10u64, 500u64]])],
    );
    assert_eq!(v.relations[0].inserted.len(), 1);
    assert_eq!(v.relations[0].inserted[0].columns, vec![10u64, 500u64]);
    assert_eq!(v.relations[0].deleted.len(), 2);
    assert_eq!(v.relations[0].deleted[0].stamp, 1);
    assert_eq!(v.relations[0].deleted[1].stamp, 7);
}

#[test]
fn validation_scans_multiple_relations_by_clause() {
    let mut v = Validator::new();
    v.define_schema(&vec![2u32, 2u32]);
    v.transaction(1, &vec![], &vec![(1u32, vec![vec![5u64, 50u64]])]);
    v.validate(
        1,
        1,
        1,
        &vec![
            (0u32, vec![pred(1, Op::Equal, 50)]),
            (1u32, vec![pred(1, Op::Equal, 50)]),
        ],
    );
    let out = v.flush(1);
    assert_eq!(out, vec![b'1']);
}
