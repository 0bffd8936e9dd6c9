//! The mathematical model of the store.
//!
//! Every executable type of the library has a view into these ghost types,
//! and every contract is stated over them.

use vstd::prelude::*;

verus! {

/// One row version: its column values and the id of the transaction that
/// produced this exact version (its stamp).
pub ghost struct RowModel {
    pub columns: Seq<u64>,
    pub stamp: u64,
}

/// One relation: the fixed column count, the live rows in table order, and
/// the append-only history of tombstoned row versions.
pub ghost struct RelationModel {
    pub columns: u32,
    pub live: Seq<RowModel>,
    pub history: Seq<RowModel>,
}

/// The whole engine: the relations, the queue of computed but unreleased
/// validation outcomes, and the retention mark.
pub ghost struct ValidatorModel {
    pub relations: Seq<RelationModel>,
    pub validations: Seq<(u64, bool)>,
    pub last_forget: u64,
}

/// The primary key of a row is its first column.
pub open spec fn pk(row: RowModel) -> u64 {
    row.columns[0]
}

/// Well-formedness of one relation: the column count is positive, every row
/// ever stored has exactly that many columns, and the live table holds at
/// most one row per primary key.
pub open spec fn rel_wf(rel: RelationModel) -> bool {
    &&& rel.columns >= 1
    &&& forall|i: int|
        0 <= i < rel.live.len() ==> (#[trigger] rel.live[i]).columns.len() == rel.columns
    &&& forall|i: int|
        0 <= i < rel.history.len() ==> (#[trigger] rel.history[i]).columns.len() == rel.columns
    &&& forall|i: int, j: int|
        0 <= i < rel.live.len() && 0 <= j < rel.live.len() && i != j ==> #[trigger] pk(
            rel.live[i],
        ) != #[trigger] pk(rel.live[j])
}

/// Well-formedness of the whole engine: every relation is well formed.
pub open spec fn validator_wf(v: ValidatorModel) -> bool {
    forall|i: int| 0 <= i < v.relations.len() ==> rel_wf(#[trigger] v.relations[i])
}

/// Whether the live table holds a row with the given primary key.
pub open spec fn has_live(rel: RelationModel, key: u64) -> bool {
    exists|i: int| 0 <= i < rel.live.len() && pk(#[trigger] rel.live[i]) == key
}

/// The index of the live row with the given primary key.  Under `rel_wf`
/// there is at most one such row, so the index is determined.
pub open spec fn live_index(rel: RelationModel, key: u64) -> int {
    choose|i: int| 0 <= i < rel.live.len() && pk(#[trigger] rel.live[i]) == key
}

/// Insertion of one row: a new version stamped with the inserting
/// transaction replaces any live row at the same primary key, in place;
/// otherwise it is appended to the live table.  History is never consulted
/// or extended by an insertion.
pub open spec fn insert_into(rel: RelationModel, tx: u64, cols: Seq<u64>) -> RelationModel {
    let row = RowModel { columns: cols, stamp: tx };
    if has_live(rel, cols[0]) {
        RelationModel {
            columns: rel.columns,
            live: rel.live.update(live_index(rel, cols[0]), row),
            history: rel.history,
        }
    } else {
        RelationModel { columns: rel.columns, live: rel.live.push(row), history: rel.history }
    }
}

/// Deletion of one primary key: if a live row exists at the key it leaves
/// the live table and two tombstones are appended to history, the row with
/// its original stamp and the same columns restamped with the deleting
/// transaction.  Deleting an absent key changes nothing.
pub open spec fn delete_from(rel: RelationModel, tx: u64, key: u64) -> RelationModel {
    if has_live(rel, key) {
        let i = live_index(rel, key);
        let row = rel.live[i];
        RelationModel {
            columns: rel.columns,
            live: rel.live.remove(i),
            history: rel.history.push(row).push(RowModel { columns: row.columns, stamp: tx }),
        }
    } else {
        rel
    }
}

/// One deletion group applied to the relation table: the keys are deleted
/// from the named relation in order.
pub open spec fn delete_keys(
    rels: Seq<RelationModel>,
    tx: u64,
    rel_id: u32,
    keys: Seq<u64>,
) -> Seq<RelationModel>
    decreases keys.len(),
{
    if keys.len() == 0 {
        rels
    } else {
        let prev = delete_keys(rels, tx, rel_id, keys.drop_last());
        prev.update(rel_id as int, delete_from(prev[rel_id as int], tx, keys.last()))
    }
}

/// All deletion groups of a transaction applied in order.
pub open spec fn apply_deletions(
    rels: Seq<RelationModel>,
    tx: u64,
    groups: Seq<(u32, Seq<u64>)>,
) -> Seq<RelationModel>
    decreases groups.len(),
{
    if groups.len() == 0 {
        rels
    } else {
        let prev = apply_deletions(rels, tx, groups.drop_last());
        delete_keys(prev, tx, groups.last().0, groups.last().1)
    }
}

/// One insertion group applied to the relation table: the rows are inserted
/// into the named relation in order.
pub open spec fn insert_rows(
    rels: Seq<RelationModel>,
    tx: u64,
    rel_id: u32,
    rows: Seq<Seq<u64>>,
) -> Seq<RelationModel>
    decreases rows.len(),
{
    if rows.len() == 0 {
        rels
    } else {
        let prev = insert_rows(rels, tx, rel_id, rows.drop_last());
        prev.update(rel_id as int, insert_into(prev[rel_id as int], tx, rows.last()))
    }
}

/// All insertion groups of a transaction applied in order.
pub open spec fn apply_insertions(
    rels: Seq<RelationModel>,
    tx: u64,
    groups: Seq<(u32, Seq<Seq<u64>>)>,
) -> Seq<RelationModel>
    decreases groups.len(),
{
    if groups.len() == 0 {
        rels
    } else {
        let prev = apply_insertions(rels, tx, groups.drop_last());
        insert_rows(prev, tx, groups.last().0, groups.last().1)
    }
}

/// One whole transaction: all deletions are applied before any insertion,
/// so a transaction can delete a key and re-insert it in one step.
pub open spec fn apply_transaction(
    rels: Seq<RelationModel>,
    tx: u64,
    deletions: Seq<(u32, Seq<u64>)>,
    insertions: Seq<(u32, Seq<Seq<u64>>)>,
) -> Seq<RelationModel> {
    apply_insertions(apply_deletions(rels, tx, deletions), tx, insertions)
}

/// Every deletion group names a relation of the table.
pub open spec fn delete_groups_wf(groups: Seq<(u32, Seq<u64>)>, num_relations: int) -> bool {
    forall|i: int| 0 <= i < groups.len() ==> (#[trigger] groups[i]).0 < num_relations
}

/// Every insertion group names a relation of the table and every row of the
/// group has that relation's column count.
pub open spec fn insert_groups_wf(
    groups: Seq<(u32, Seq<Seq<u64>>)>,
    rels: Seq<RelationModel>,
) -> bool {
    &&& forall|i: int| 0 <= i < groups.len() ==> (#[trigger] groups[i]).0 < rels.len()
    &&& forall|i: int, j: int|
        0 <= i < groups.len() && 0 <= j < groups[i].1.len() ==> (#[trigger] groups[i].1[j]).len()
            == rels[groups[i].0 as int].columns
}

/// The output byte for one released outcome: an ASCII `'0'` for true (no
/// violation found) and an ASCII `'1'` for false (violation found).
pub open spec fn outcome_byte(outcome: bool) -> u8 {
    if outcome {
        48u8
    } else {
        49u8
    }
}

/// The queue entries a release with the given reference keeps: those with
/// `validation_id > reference`, in their stored order.
pub open spec fn kept_after(q: Seq<(u64, bool)>, reference: u64) -> Seq<(u64, bool)>
    decreases q.len(),
{
    if q.len() == 0 {
        Seq::empty()
    } else {
        let prev = kept_after(q.drop_last(), reference);
        if q.last().0 > reference {
            prev.push(q.last())
        } else {
            prev
        }
    }
}

/// The bytes a release with the given reference emits: one byte per entry
/// with `validation_id <= reference`, in the order the entries stand in the
/// queue, which is the order their validation requests arrived.
pub open spec fn released_bytes(q: Seq<(u64, bool)>, reference: u64) -> Seq<u8>
    decreases q.len(),
{
    if q.len() == 0 {
        Seq::empty()
    } else {
        let prev = released_bytes(q.drop_last(), reference);
        if q.last().0 <= reference {
            prev.push(outcome_byte(q.last().1))
        } else {
            prev
        }
    }
}

/// The history entries that survive pruning at a retention mark: those with
/// a stamp above the mark, in their stored order.
pub open spec fn history_above(h: Seq<RowModel>, mark: u64) -> Seq<RowModel>
    decreases h.len(),
{
    if h.len() == 0 {
        Seq::empty()
    } else {
        let prev = history_above(h.drop_last(), mark);
        if h.last().stamp > mark {
            prev.push(h.last())
        } else {
            prev
        }
    }
}

/// One relation after pruning at a retention mark: the live table is kept
/// whole, the history keeps only the versions stamped above the mark.  A
/// validation whose range lies entirely above the mark sees the same
/// candidates before and after pruning.
pub open spec fn prune_relation(rel: RelationModel, mark: u64) -> RelationModel {
    RelationModel {
        columns: rel.columns,
        live: rel.live,
        history: history_above(rel.history, mark),
    }
}

/// Pruned history entries keep the relation's column count.
pub proof fn lemma_history_above_wf(h: Seq<RowModel>, mark: u64, columns: u32)
    requires
        forall|i: int| 0 <= i < h.len() ==> (#[trigger] h[i]).columns.len() == columns,
    ensures
        forall|i: int|
            0 <= i < history_above(h, mark).len() ==> (#[trigger] history_above(h, mark)[i]).columns.len()
                == columns,
    decreases h.len(),
{
    if h.len() > 0 {
        assert(forall|i: int|
            0 <= i < h.drop_last().len() ==> (#[trigger] h.drop_last()[i]).columns.len()
                == columns);
        lemma_history_above_wf(h.drop_last(), mark, columns);
        let prev = history_above(h.drop_last(), mark);
        if h.last().stamp > mark {
            assert(history_above(h, mark) == prev.push(h.last()));
            assert(h.last() == h[h.len() - 1]);
            assert forall|i: int| 0 <= i < history_above(h, mark).len() implies (
            #[trigger] history_above(h, mark)[i]).columns.len() == columns by {
                if i < prev.len() {
                    assert(history_above(h, mark)[i] == prev[i]);
                } else {
                    assert(history_above(h, mark)[i] == h.last());
                }
            }
        } else {
            assert(history_above(h, mark) == prev);
        }
    }
}

/// Pruning preserves well-formedness.
pub proof fn lemma_prune_relation_wf(rel: RelationModel, mark: u64)
    requires
        rel_wf(rel),
    ensures
        rel_wf(prune_relation(rel, mark)),
{
    lemma_history_above_wf(rel.history, mark, rel.columns);
}

/// Insertion preserves well-formedness and leaves the column count and the
/// history unchanged.
pub proof fn lemma_insert_into_wf(rel: RelationModel, tx: u64, cols: Seq<u64>)
    requires
        rel_wf(rel),
        cols.len() == rel.columns,
    ensures
        rel_wf(insert_into(rel, tx, cols)),
        insert_into(rel, tx, cols).columns == rel.columns,
        insert_into(rel, tx, cols).history == rel.history,
        has_live(insert_into(rel, tx, cols), cols[0]),
{
    let row = RowModel { columns: cols, stamp: tx };
    let post = insert_into(rel, tx, cols);
    if has_live(rel, cols[0]) {
        let i = live_index(rel, cols[0]);
        assert(0 <= i < rel.live.len() && pk(rel.live[i]) == cols[0]);
        assert(pk(post.live[i]) == cols[0]);
    } else {
        assert(pk(post.live[rel.live.len() as int]) == cols[0]);
        assert(forall|k: int|
            0 <= k < rel.live.len() ==> #[trigger] post.live[k] == rel.live[k]);
    }
}

/// Deletion preserves well-formedness, leaves the column count unchanged,
/// and removes the key from the live table.
pub proof fn lemma_delete_from_wf(rel: RelationModel, tx: u64, key: u64)
    requires
        rel_wf(rel),
    ensures
        rel_wf(delete_from(rel, tx, key)),
        delete_from(rel, tx, key).columns == rel.columns,
        !has_live(delete_from(rel, tx, key), key),
{
    let post = delete_from(rel, tx, key);
    if has_live(rel, key) {
        let i = live_index(rel, key);
        assert(0 <= i < rel.live.len() && pk(rel.live[i]) == key);
        assert(forall|k: int|
            0 <= k < post.live.len() ==> #[trigger] post.live[k] == if k < i {
                rel.live[k]
            } else {
                rel.live[k + 1]
            });
        assert forall|k: int| 0 <= k < post.live.len() implies pk(#[trigger] post.live[k])
            != key by {
            if k < i {
                assert(post.live[k] == rel.live[k]);
            } else {
                assert(post.live[k] == rel.live[k + 1]);
            }
        }
    }
}

} // verus!
