//! Predicates and their evaluation over row versions.

use vstd::prelude::*;
use crate::model::{RowModel, RelationModel};

verus! {

/// A comparison operator of a predicate.  The wire protocol encodes the
/// operators as the codes 0 through 6, in the order listed here; `Always`
/// holds of every row and is the meaning of a clause with no predicates.
#[derive(Clone, Copy, PartialEq, Eq, Structural, Debug)]
pub enum Op {
    Equal,
    NotEqual,
    Less,
    LessEq,
    Greater,
    GreaterEq,
    Always,
}

/// One predicate: a column index, an operator, and a reference value.
#[derive(Clone, Copy, PartialEq, Eq, Structural, Debug)]
pub struct Predicate {
    pub column: u32,
    pub op: Op,
    pub value: u64,
}

impl Op {
    /// The operator a wire code stands for: `Some` exactly for the codes
    /// 0 through 6, in the order of the variants; an unknown code is a
    /// protocol error and yields `None`.
    pub fn from_code(code: u32) -> (r: Option<Op>)
        ensures
            r == Op::spec_from_code(code),
            r is Some <==> code <= 6,
    {
        match code {
            0u32 => Some(Op::Equal),
            1u32 => Some(Op::NotEqual),
            2u32 => Some(Op::Less),
            3u32 => Some(Op::LessEq),
            4u32 => Some(Op::Greater),
            5u32 => Some(Op::GreaterEq),
            6u32 => Some(Op::Always),
            _ => None,
        }
    }

    /// What `from_code` returns.
    pub open spec fn spec_from_code(code: u32) -> Option<Op> {
        if code == 0 {
            Some(Op::Equal)
        } else if code == 1 {
            Some(Op::NotEqual)
        } else if code == 2 {
            Some(Op::Less)
        } else if code == 3 {
            Some(Op::LessEq)
        } else if code == 4 {
            Some(Op::Greater)
        } else if code == 5 {
            Some(Op::GreaterEq)
        } else if code == 6 {
            Some(Op::Always)
        } else {
            None
        }
    }
}

/// Whether one predicate holds of a row version.
pub open spec fn pred_holds(row: RowModel, p: Predicate) -> bool {
    match p.op {
        Op::Equal => row.columns[p.column as int] == p.value,
        Op::NotEqual => row.columns[p.column as int] != p.value,
        Op::Less => row.columns[p.column as int] < p.value,
        Op::LessEq => row.columns[p.column as int] <= p.value,
        Op::Greater => row.columns[p.column as int] > p.value,
        Op::GreaterEq => row.columns[p.column as int] >= p.value,
        Op::Always => true,
    }
}

/// Whether a row version satisfies every predicate of a set (logical AND).
/// An empty set matches every row.
pub open spec fn row_matches(row: RowModel, preds: Seq<Predicate>) -> bool {
    forall|i: int| 0 <= i < preds.len() ==> pred_holds(row, #[trigger] preds[i])
}

/// Whether a row version was stamped within the inclusive transaction range.
pub open spec fn stamped_in(row: RowModel, from_tx: u64, to_tx: u64) -> bool {
    from_tx <= row.stamp && row.stamp <= to_tx
}

/// Whether no row version of the sequence both lies in the transaction
/// range and satisfies the predicate set.
pub open spec fn no_violation_in(
    rows: Seq<RowModel>,
    from_tx: u64,
    to_tx: u64,
    preds: Seq<Predicate>,
) -> bool {
    forall|i: int|
        0 <= i < rows.len() ==> !(stamped_in(#[trigger] rows[i], from_tx, to_tx) && row_matches(
            rows[i],
            preds,
        ))
}

/// Whether a clause finds no violating row in its relation: the candidate
/// set is the union of the live rows and the history, restricted to the
/// versions stamped within the range.
pub open spec fn clause_clear(
    rel: RelationModel,
    from_tx: u64,
    to_tx: u64,
    preds: Seq<Predicate>,
) -> bool {
    no_violation_in(rel.live + rel.history, from_tx, to_tx, preds)
}

/// The outcome of a whole validation: true iff no clause finds a violating
/// row in its relation.
pub open spec fn outcome_of(
    rels: Seq<RelationModel>,
    from_tx: u64,
    to_tx: u64,
    clauses: Seq<(u32, Seq<Predicate>)>,
) -> bool {
    forall|i: int|
        0 <= i < clauses.len() ==> clause_clear(
            rels[(#[trigger] clauses[i]).0 as int],
            from_tx,
            to_tx,
            clauses[i].1,
        )
}

/// Every clause names a relation of the table and every predicate's column
/// index lies below that relation's column count.
pub open spec fn clauses_wf(clauses: Seq<(u32, Seq<Predicate>)>, rels: Seq<RelationModel>) -> bool {
    &&& forall|i: int| 0 <= i < clauses.len() ==> (#[trigger] clauses[i]).0 < rels.len()
    &&& forall|i: int, j: int|
        0 <= i < clauses.len() && 0 <= j < clauses[i].1.len() ==> (#[trigger] clauses[i].1[j]).column
            < rels[clauses[i].0 as int].columns
}

} // verus!
