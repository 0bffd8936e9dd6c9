//! Laws of the store that relate several operations, proved once and for
//! all over the mathematical model.

use vstd::prelude::*;
use crate::model::{
    RowModel, RelationModel, pk, rel_wf, has_live, live_index, insert_into, delete_from,
    kept_after, released_bytes, history_above, prune_relation, outcome_byte, lemma_insert_into_wf,
    lemma_delete_from_wf,
};
use crate::predicate::{
    Predicate, row_matches, stamped_in, no_violation_in, clause_clear, outcome_of,
};

verus! {

/// Inserting a row with primary key `cols[0]` at transaction `t1` and then
/// deleting that key at a later transaction `t2` leaves no live row at the
/// key and appends exactly two history entries for that row data, stamped
/// `t1` and `t2` respectively.
pub proof fn lemma_insert_delete_round_trip(rel: RelationModel, t1: u64, t2: u64, cols: Seq<u64>)
    requires
        rel_wf(rel),
        cols.len() == rel.columns,
        t1 < t2,
    ensures
        ({
            let after = delete_from(insert_into(rel, t1, cols), t2, cols[0]);
            &&& !has_live(after, cols[0])
            &&& after.history.len() == rel.history.len() + 2
            &&& after.history[rel.history.len() as int] == (RowModel { columns: cols, stamp: t1 })
            &&& after.history[rel.history.len() as int + 1] == (RowModel { columns: cols, stamp: t2 })
        }),
{
    let row = RowModel { columns: cols, stamp: t1 };
    let mid = insert_into(rel, t1, cols);
    lemma_insert_into_wf(rel, t1, cols);
    lemma_delete_from_wf(mid, t2, cols[0]);
    let li = live_index(mid, cols[0]);
    assert(0 <= li < mid.live.len() && pk(mid.live[li]) == cols[0]);
    if has_live(rel, cols[0]) {
        let i0 = live_index(rel, cols[0]);
        assert(0 <= i0 < rel.live.len() && pk(rel.live[i0]) == cols[0]);
        assert(mid.live == rel.live.update(i0, row));
        assert(pk(mid.live[i0]) == cols[0]);
        assert(li == i0);
        assert(mid.live[li] == row);
    } else {
        assert(mid.live == rel.live.push(row));
        assert(pk(mid.live[rel.live.len() as int]) == cols[0]);
        assert(li == rel.live.len());
        assert(mid.live[li] == row);
    }
    let after = delete_from(mid, t2, cols[0]);
    let restamped = RowModel { columns: cols, stamp: t2 };
    assert(after.history == rel.history.push(row).push(restamped));
    assert(after.history[rel.history.len() as int] == row);
    assert(after.history[rel.history.len() as int + 1] == restamped);
}

/// Narrowing the transaction range of a clause cannot surface a violation
/// that the wider range did not have: if the wide range finds no violating
/// row, neither does any range contained in it.  Equivalently, widening the
/// range can only turn a true outcome false, never false to true.
pub proof fn lemma_validation_monotonic(
    rel: RelationModel,
    from_narrow: u64,
    to_narrow: u64,
    from_wide: u64,
    to_wide: u64,
    preds: Seq<Predicate>,
)
    requires
        from_wide <= from_narrow,
        to_narrow <= to_wide,
        clause_clear(rel, from_wide, to_wide, preds),
    ensures
        clause_clear(rel, from_narrow, to_narrow, preds),
{
    let rows = rel.live + rel.history;
    assert forall|i: int| 0 <= i < rows.len() implies !(stamped_in(
        #[trigger] rows[i],
        from_narrow,
        to_narrow,
    ) && row_matches(rows[i], preds)) by {
        assert(!(stamped_in(rows[i], from_wide, to_wide) && row_matches(rows[i], preds)));
    }
}

/// The same monotonicity for a whole validation request: if the outcome is
/// true over a wide range, it is true over every range contained in it.
pub proof fn lemma_outcome_monotonic(
    rels: Seq<RelationModel>,
    from_narrow: u64,
    to_narrow: u64,
    from_wide: u64,
    to_wide: u64,
    clauses: Seq<(u32, Seq<Predicate>)>,
)
    requires
        from_wide <= from_narrow,
        to_narrow <= to_wide,
        outcome_of(rels, from_wide, to_wide, clauses),
    ensures
        outcome_of(rels, from_narrow, to_narrow, clauses),
{
    assert forall|i: int| 0 <= i < clauses.len() implies clause_clear(
        rels[(#[trigger] clauses[i]).0 as int],
        from_narrow,
        to_narrow,
        clauses[i].1,
    ) by {
        lemma_validation_monotonic(
            rels[clauses[i].0 as int],
            from_narrow,
            to_narrow,
            from_wide,
            to_wide,
            clauses[i].1,
        );
    }
}

/// Release is idempotent: after a release with reference `x`, a second
/// release with the same reference emits nothing, because every entry the
/// first release kept has an id above the reference.
pub proof fn lemma_release_idempotent(q: Seq<(u64, bool)>, reference: u64)
    ensures
        released_bytes(kept_after(q, reference), reference) == Seq::<u8>::empty(),
    decreases q.len(),
{
    if q.len() == 0 {
        assert(kept_after(q, reference) == Seq::<(u64, bool)>::empty());
    } else {
        lemma_release_idempotent(q.drop_last(), reference);
        let prev = kept_after(q.drop_last(), reference);
        if q.last().0 > reference {
            assert(kept_after(q, reference) == prev.push(q.last()));
            assert(prev.push(q.last()).drop_last() =~= prev);
            assert(prev.push(q.last()).last() == q.last());
        } else {
            assert(kept_after(q, reference) == prev);
        }
    }
}

/// The test a release applies to one queue entry: released at or below the
/// reference, kept above it.
pub open spec fn releases_at(reference: u64) -> spec_fn((u64, bool)) -> bool {
    |e: (u64, bool)| e.0 <= reference
}

/// The byte one released entry becomes.
pub open spec fn entry_byte() -> spec_fn((u64, bool)) -> u8 {
    |e: (u64, bool)| outcome_byte(e.1)
}

/// The test an entry must pass to stay queued: its id lies above the
/// reference.
pub open spec fn stays_after(reference: u64) -> spec_fn((u64, bool)) -> bool {
    |e: (u64, bool)| e.0 > reference
}

/// The release selection in standard vocabulary: a release keeps exactly
/// the entries with an id above the reference and emits the outcome bytes
/// of exactly the entries at or below it, both in queue order, which is
/// the order the validation requests arrived.
pub proof fn lemma_release_selection(q: Seq<(u64, bool)>, reference: u64)
    ensures
        kept_after(q, reference) == q.filter(stays_after(reference)),
        released_bytes(q, reference) == q.filter(releases_at(reference)).map_values(entry_byte()),
    decreases q.len(),
{
    reveal_with_fuel(Seq::<(u64, bool)>::filter, 2);
    if q.len() == 0 {
        assert(q.filter(stays_after(reference)) =~= kept_after(q, reference));
        assert(q.filter(releases_at(reference)).map_values(entry_byte()) =~= released_bytes(
            q,
            reference,
        ));
    } else {
        lemma_release_selection(q.drop_last(), reference);
        let x = q.last();
        let kprev = q.drop_last().filter(stays_after(reference));
        let fprev = q.drop_last().filter(releases_at(reference));
        assert(stays_after(reference)(x) == (x.0 > reference));
        assert(releases_at(reference)(x) == (x.0 <= reference));
        if x.0 > reference {
            assert(q.filter(stays_after(reference)) == kprev.push(x));
            assert(q.filter(releases_at(reference)) == fprev);
        } else {
            assert(q.filter(stays_after(reference)) == kprev);
            assert(q.filter(releases_at(reference)) == fprev.push(x));
            let mapped_prev = fprev.map_values(entry_byte());
            assert forall|i: int| 0 <= i < fprev.push(x).len() implies fprev.push(x).map_values(
                entry_byte(),
            )[i] == mapped_prev.push(outcome_byte(x.1))[i] by {
                assert(fprev.push(x).map_values(entry_byte())[i] == entry_byte()(
                    fprev.push(x)[i],
                ));
                if i < fprev.len() {
                    assert(fprev.push(x)[i] == fprev[i]);
                    assert(mapped_prev[i] == entry_byte()(fprev[i]));
                } else {
                    assert(fprev.push(x)[i] == x);
                    assert(entry_byte()(x) == outcome_byte(x.1));
                }
            }
            assert(fprev.push(x).map_values(entry_byte()) =~= mapped_prev.push(
                outcome_byte(x.1),
            ));
        }
    }
}

/// A clause with no predicates matches every candidate row, so it is clear
/// iff the relation holds no row version at all, live or tombstoned, that
/// is stamped within the range.
pub proof fn lemma_zero_predicates(rel: RelationModel, from_tx: u64, to_tx: u64)
    ensures
        clause_clear(rel, from_tx, to_tx, Seq::<Predicate>::empty()) <==> (forall|i: int|
            0 <= i < (rel.live + rel.history).len() ==> !stamped_in(
                #[trigger] (rel.live + rel.history)[i],
                from_tx,
                to_tx,
            )),
{
    let rows = rel.live + rel.history;
    assert(forall|i: int|
        0 <= i < rows.len() ==> row_matches(#[trigger] rows[i], Seq::<Predicate>::empty()));
}

/// Splitting a candidate set: a combined sequence is free of violations
/// iff both halves are.
pub proof fn lemma_no_violation_split(
    a: Seq<RowModel>,
    b: Seq<RowModel>,
    from_tx: u64,
    to_tx: u64,
    preds: Seq<Predicate>,
)
    ensures
        no_violation_in(a + b, from_tx, to_tx, preds) <==> (no_violation_in(a, from_tx, to_tx, preds)
            && no_violation_in(b, from_tx, to_tx, preds)),
{
    if no_violation_in(a + b, from_tx, to_tx, preds) {
        assert forall|i: int| 0 <= i < a.len() implies !(stamped_in(
            #[trigger] a[i],
            from_tx,
            to_tx,
        ) && row_matches(a[i], preds)) by {
            assert((a + b)[i] == a[i]);
        }
        assert forall|i: int| 0 <= i < b.len() implies !(stamped_in(
            #[trigger] b[i],
            from_tx,
            to_tx,
        ) && row_matches(b[i], preds)) by {
            assert((a + b)[a.len() + i] == b[i]);
        }
    }
    if no_violation_in(a, from_tx, to_tx, preds) && no_violation_in(b, from_tx, to_tx, preds) {
        assert forall|i: int| 0 <= i < (a + b).len() implies !(stamped_in(
            #[trigger] (a + b)[i],
            from_tx,
            to_tx,
        ) && row_matches((a + b)[i], preds)) by {
            if i < a.len() {
                assert((a + b)[i] == a[i]);
            } else {
                assert((a + b)[i] == b[i - a.len()]);
            }
        }
    }
}

/// Pruned history finds the same violations as full history for any range
/// that lies entirely above the mark: the discarded versions are stamped at
/// or below the mark, hence outside the range.
pub proof fn lemma_prune_history_preserves(
    h: Seq<RowModel>,
    mark: u64,
    from_tx: u64,
    to_tx: u64,
    preds: Seq<Predicate>,
)
    requires
        mark < from_tx,
    ensures
        no_violation_in(history_above(h, mark), from_tx, to_tx, preds) <==> no_violation_in(
            h,
            from_tx,
            to_tx,
            preds,
        ),
    decreases h.len(),
{
    if h.len() > 0 {
        lemma_prune_history_preserves(h.drop_last(), mark, from_tx, to_tx, preds);
        let prev = history_above(h.drop_last(), mark);
        let x = h.last();
        assert(h == h.drop_last().push(x));
        lemma_no_violation_split(h.drop_last(), seq![x], from_tx, to_tx, preds);
        assert(h.drop_last() + seq![x] =~= h);
        assert(no_violation_in(seq![x], from_tx, to_tx, preds) <==> !(stamped_in(x, from_tx, to_tx)
            && row_matches(x, preds))) by {
            assert(seq![x][0] == x);
        }
        if x.stamp > mark {
            assert(history_above(h, mark) == prev.push(x));
            lemma_no_violation_split(prev, seq![x], from_tx, to_tx, preds);
            assert(prev + seq![x] =~= prev.push(x));
        } else {
            assert(history_above(h, mark) == prev);
            assert(!stamped_in(x, from_tx, to_tx));
        }
    }
}

/// Pruning a relation at a retention mark does not change the outcome of
/// any clause whose range lies entirely above the mark.
pub proof fn lemma_prune_preserves_validation(
    rel: RelationModel,
    mark: u64,
    from_tx: u64,
    to_tx: u64,
    preds: Seq<Predicate>,
)
    requires
        mark < from_tx,
    ensures
        clause_clear(prune_relation(rel, mark), from_tx, to_tx, preds) <==> clause_clear(
            rel,
            from_tx,
            to_tx,
            preds,
        ),
{
    lemma_no_violation_split(rel.live, rel.history, from_tx, to_tx, preds);
    lemma_no_violation_split(rel.live, history_above(rel.history, mark), from_tx, to_tx, preds);
    lemma_prune_history_preserves(rel.history, mark, from_tx, to_tx, preds);
}

} // verus!
