//! The executable store: relations, the validator, and its operations.

use vstd::prelude::*;
use crate::model::{
    RowModel, RelationModel, ValidatorModel, pk, rel_wf, validator_wf, has_live, live_index,
    insert_into, delete_from, lemma_insert_into_wf, lemma_delete_from_wf, delete_keys,
    apply_deletions, insert_rows, apply_insertions, apply_transaction, delete_groups_wf,
    insert_groups_wf, kept_after, released_bytes, history_above, prune_relation,
    lemma_prune_relation_wf,
};
use crate::predicate::{
    Op, Predicate, pred_holds, row_matches, stamped_in, clause_clear, outcome_of,
    clauses_wf,
};

verus! {

/// Unwraps a result that the protocol guarantees to be present; the caller
/// must have ruled the error case out.
pub fn expect<A, B>(r: Result<A, B>) -> (a: A)
    requires
        r is Ok,
    ensures
        r == Result::<A, B>::Ok(a),
{
    match r {
        Ok(a) => a,
        Err(_) => vstd::pervasive::unreached(),
    }
}

/// One stored row version: its column values and the id of the transaction
/// that produced this version.
pub struct Row {
    pub columns: Vec<u64>,
    pub stamp: u64,
}

impl View for Row {
    type V = RowModel;

    open spec fn view(&self) -> RowModel {
        RowModel { columns: self.columns@, stamp: self.stamp }
    }
}

/// The view of a whole row table.
pub open spec fn rows_view(rows: Seq<Row>) -> Seq<RowModel> {
    rows.map(|i: int, r: Row| r@)
}

/// One relation: a fixed column count, the live rows (`inserted`), and the
/// history of tombstoned row versions (`deleted`).
pub struct Relation {
    pub columns: u32,
    pub inserted: Vec<Row>,
    pub deleted: Vec<Row>,
}

impl View for Relation {
    type V = RelationModel;

    open spec fn view(&self) -> RelationModel {
        RelationModel {
            columns: self.columns,
            live: rows_view(self.inserted@),
            history: rows_view(self.deleted@),
        }
    }
}

impl Relation {
    /// A fresh relation with the given positive column count and no rows.
    pub fn new(num_columns: u32) -> (r: Relation)
        requires
            num_columns >= 1,
        ensures
            r@ == (RelationModel {
                columns: num_columns,
                live: Seq::<RowModel>::empty(),
                history: Seq::<RowModel>::empty(),
            }),
            rel_wf(r@),
    {
        let r = Relation { columns: num_columns, inserted: Vec::new(), deleted: Vec::new() };
        proof {
            assert(r@.live =~= Seq::<RowModel>::empty());
            assert(r@.history =~= Seq::<RowModel>::empty());
        }
        r
    }
}

/// The view of the relation table.
pub open spec fn relations_view(rels: Seq<Relation>) -> Seq<RelationModel> {
    rels.map(|i: int, r: Relation| r@)
}

/// The view of a validation request's clauses: per clause the relation id
/// and the predicate set.
pub open spec fn clauses_view(clauses: Seq<(u32, Vec<Predicate>)>) -> Seq<(u32, Seq<Predicate>)> {
    clauses.map(|i: int, c: (u32, Vec<Predicate>)| (c.0, c.1@))
}

/// The view of a transaction's deletion groups: per group the relation id
/// and the primary keys to delete, in order.
pub open spec fn deletions_view(groups: Seq<(u32, Vec<u64>)>) -> Seq<(u32, Seq<u64>)> {
    groups.map(|i: int, g: (u32, Vec<u64>)| (g.0, g.1@))
}

/// The view of a transaction's insertion groups: per group the relation id
/// and the full rows to insert, in order.
pub open spec fn insertions_view(groups: Seq<(u32, Vec<Vec<u64>>)>) -> Seq<(u32, Seq<Seq<u64>>)> {
    groups.map(|i: int, g: (u32, Vec<Vec<u64>>)| (g.0, g.1@.map(|j: int, r: Vec<u64>| r@)))
}

/// The engine: the relations, the queue of computed but unreleased
/// validation outcomes in request order, and the retention mark.
pub struct Validator {
    pub relations: Vec<Relation>,
    pub validations: Vec<(u64, bool)>,
    pub last_forget: u64,
}

impl View for Validator {
    type V = ValidatorModel;

    open spec fn view(&self) -> ValidatorModel {
        ValidatorModel {
            relations: relations_view(self.relations@),
            validations: self.validations@,
            last_forget: self.last_forget,
        }
    }
}

/// Copies a column vector value for value.
fn copy_columns(v: &Vec<u64>) -> (r: Vec<u64>)
    ensures
        r@ == v@,
{
    let mut r: Vec<u64> = Vec::new();
    let mut i: usize = 0;
    while i < v.len()
        invariant
            i <= v@.len(),
            r@ =~= v@.subrange(0, i as int),
        decreases v@.len() - i,
    {
        r.push(v[i]);
        i += 1;
    }
    proof {
        assert(r@ =~= v@);
    }
    r
}

/// The index of the live row with the given primary key, if any.
fn find_live(rel: &Relation, key: u64) -> (r: Option<usize>)
    requires
        rel_wf(rel@),
    ensures
        match r {
            Some(k) => k < rel@.live.len() && pk(rel@.live[k as int]) == key,
            None => !has_live(rel@, key),
        },
{
    let mut k: usize = 0;
    while k < rel.inserted.len()
        invariant
            rel_wf(rel@),
            k <= rel.inserted@.len(),
            forall|j: int| 0 <= j < k ==> pk(#[trigger] rel@.live[j]) != key,
        decreases rel.inserted@.len() - k,
    {
        proof {
            assert(rel@.live[k as int] == rel.inserted@[k as int]@);
            assert(rel@.live[k as int].columns.len() == rel@.columns);
        }
        if rel.inserted[k].columns[0] == key {
            assert(pk(rel@.live[k as int]) == key);
            return Some(k);
        }
        k += 1;
    }
    None
}

/// Whether one row satisfies every predicate of the set.
fn row_satisfies(row: &Row, predicates: &Vec<Predicate>) -> (r: bool)
    requires
        forall|j: int|
            0 <= j < predicates@.len() ==> (#[trigger] predicates@[j]).column < row@.columns.len(),
    ensures
        r == row_matches(row@, predicates@),
{
    let mut j: usize = 0;
    while j < predicates.len()
        invariant
            j <= predicates@.len(),
            forall|k: int|
                0 <= k < predicates@.len() ==> (#[trigger] predicates@[k]).column
                    < row@.columns.len(),
            forall|k: int| 0 <= k < j ==> pred_holds(row@, #[trigger] predicates@[k]),
        decreases predicates@.len() - j,
    {
        let p = predicates[j];
        let c = row.columns[p.column as usize];
        let ok = match p.op {
            Op::Equal => c == p.value,
            Op::NotEqual => c != p.value,
            Op::Less => c < p.value,
            Op::LessEq => c <= p.value,
            Op::Greater => c > p.value,
            Op::GreaterEq => c >= p.value,
            Op::Always => true,
        };
        if !ok {
            proof {
                assert(!pred_holds(row@, predicates@[j as int]));
            }
            return false;
        }
        j += 1;
    }
    true
}

impl Validator {
    /// A fresh engine with no relations, an empty queue, and retention
    /// mark zero.
    pub fn new() -> (v: Validator)
        ensures
            v@.relations =~= Seq::<RelationModel>::empty(),
            v@.validations =~= Seq::<(u64, bool)>::empty(),
            v@.last_forget == 0,
            validator_wf(v@),
    {
        Validator { relations: Vec::new(), validations: Vec::new(), last_forget: 0 }
    }

    /// Replaces the relation table with fresh relations of the given
    /// positive column counts, one per entry; the pending queue and the
    /// retention mark are kept.
    pub fn define_schema(&mut self, column_counts: &Vec<u32>)
        requires
            forall|i: int| 0 <= i < column_counts@.len() ==> column_counts@[i] >= 1,
        ensures
            validator_wf(final(self)@),
            final(self)@.relations.len() == column_counts@.len(),
            forall|i: int|
                0 <= i < column_counts@.len() ==> final(self)@.relations[i] == (RelationModel {
                    columns: column_counts@[i],
                    live: Seq::<RowModel>::empty(),
                    history: Seq::<RowModel>::empty(),
                }),
            final(self)@.validations == old(self)@.validations,
            final(self)@.last_forget == old(self)@.last_forget,
    {
        let mut rels: Vec<Relation> = Vec::new();
        let mut i: usize = 0;
        while i < column_counts.len()
            invariant
                i <= column_counts@.len(),
                rels@.len() == i,
                forall|k: int| 0 <= k < column_counts@.len() ==> column_counts@[k] >= 1,
                forall|j: int|
                    0 <= j < i ==> (#[trigger] rels@[j])@ == (RelationModel {
                        columns: column_counts@[j],
                        live: Seq::<RowModel>::empty(),
                        history: Seq::<RowModel>::empty(),
                    }),
            decreases column_counts@.len() - i,
        {
            rels.push(Relation::new(column_counts[i]));
            i += 1;
        }
        self.relations = rels;
    }

    /// Inserts one row: a new version stamped with the transaction replaces
    /// any live row at the same primary key (the first column), with no
    /// tombstone recorded for the overwritten value; otherwise the row
    /// joins the live table.
    pub fn insert_row(&mut self, transaction: u64, relation: u32, columns: Vec<u64>)
        requires
            validator_wf(old(self)@),
            (relation as int) < old(self)@.relations.len(),
            columns@.len() == old(self)@.relations[relation as int].columns,
        ensures
            validator_wf(final(self)@),
            final(self)@.relations == old(self)@.relations.update(
                relation as int,
                insert_into(old(self)@.relations[relation as int], transaction, columns@),
            ),
            final(self)@.validations == old(self)@.validations,
            final(self)@.last_forget == old(self)@.last_forget,
    {
        let ghost pre = self@;
        let ghost prel = pre.relations[relation as int];
        let ghost cols = columns@;
        let rid = relation as usize;
        proof {
            assert(rel_wf(pre.relations[relation as int]));
            lemma_insert_into_wf(prel, transaction, cols);
        }
        let key = columns[0];
        let row = Row { columns, stamp: transaction };
        let ghost rowm = RowModel { columns: cols, stamp: transaction };
        match find_live(&self.relations[rid], key) {
            Some(k) => {
                proof {
                    assert(has_live(prel, key));
                    let li = live_index(prel, key);
                    assert(0 <= li < prel.live.len() && pk(prel.live[li]) == key);
                    assert(li == k as int);
                }
                self.relations[rid].inserted[k] = row;
                proof {
                    assert(self@.relations[relation as int].live =~= prel.live.update(
                        k as int,
                        rowm,
                    ));
                    assert(self@.relations[relation as int] == insert_into(
                        prel,
                        transaction,
                        cols,
                    ));
                    assert(self@.relations =~= pre.relations.update(
                        relation as int,
                        insert_into(prel, transaction, cols),
                    ));
                }
            },
            None => {
                self.relations[rid].inserted.push(row);
                proof {
                    assert(self@.relations[relation as int].live =~= prel.live.push(rowm));
                    assert(self@.relations[relation as int] == insert_into(
                        prel,
                        transaction,
                        cols,
                    ));
                    assert(self@.relations =~= pre.relations.update(
                        relation as int,
                        insert_into(prel, transaction, cols),
                    ));
                }
            },
        }
    }

    /// Applies one whole transaction: every deletion group is applied
    /// before any insertion group, each group in order and each key or row
    /// within its group in order, so a transaction can delete a key and
    /// re-insert it with new columns in one step.
    pub fn transaction(
        &mut self,
        transaction: u64,
        deletions: &Vec<(u32, Vec<u64>)>,
        insertions: &Vec<(u32, Vec<Vec<u64>>)>,
    )
        requires
            validator_wf(old(self)@),
            delete_groups_wf(deletions_view(deletions@), old(self)@.relations.len() as int),
            insert_groups_wf(insertions_view(insertions@), old(self)@.relations),
        ensures
            validator_wf(final(self)@),
            final(self)@.relations == apply_transaction(
                old(self)@.relations,
                transaction,
                deletions_view(deletions@),
                insertions_view(insertions@),
            ),
            final(self)@.validations == old(self)@.validations,
            final(self)@.last_forget == old(self)@.last_forget,
    {
        let ghost rels0 = self@.relations;
        let ghost vals0 = self@.validations;
        let ghost mark0 = self@.last_forget;
        let ghost dgroups = deletions_view(deletions@);
        let ghost igroups = insertions_view(insertions@);
        let mut g: usize = 0;
        while g < deletions.len()
            invariant
                g <= deletions@.len(),
                dgroups == deletions_view(deletions@),
                delete_groups_wf(dgroups, rels0.len() as int),
                validator_wf(self@),
                self@.relations.len() == rels0.len(),
                forall|i: int|
                    0 <= i < rels0.len() ==> (#[trigger] self@.relations[i]).columns
                        == rels0[i].columns,
                self@.relations == apply_deletions(rels0, transaction, dgroups.take(g as int)),
                self@.validations == vals0,
                self@.last_forget == mark0,
            decreases deletions@.len() - g,
        {
            let ghost base = self@.relations;
            let rel_id = deletions[g].0;
            let mut r: usize = 0;
            while r < deletions[g].1.len()
                invariant
                    g < deletions@.len(),
                    r <= deletions@[g as int].1@.len(),
                    dgroups == deletions_view(deletions@),
                    delete_groups_wf(dgroups, rels0.len() as int),
                    rel_id == dgroups[g as int].0,
                    validator_wf(self@),
                    self@.relations.len() == rels0.len(),
                    forall|i: int|
                        0 <= i < rels0.len() ==> (#[trigger] self@.relations[i]).columns
                            == rels0[i].columns,
                    base == apply_deletions(rels0, transaction, dgroups.take(g as int)),
                    self@.relations == delete_keys(
                        base,
                        transaction,
                        rel_id,
                        dgroups[g as int].1.take(r as int),
                    ),
                    self@.validations == vals0,
                    self@.last_forget == mark0,
                decreases deletions@[g as int].1@.len() - r,
            {
                let ghost keys = dgroups[g as int].1;
                let ghost prev = self@.relations;
                let key = deletions[g].1[r];
                proof {
                    assert(dgroups[g as int].0 < rels0.len());
                }
                self.delete_row(transaction, rel_id, key);
                proof {
                    assert(keys.take(r + 1).drop_last() =~= keys.take(r as int));
                    assert(keys.take(r + 1).last() == key);
                    assert(self@.relations == delete_keys(base, transaction, rel_id, keys.take(r + 1)));
                }
                r += 1;
            }
            proof {
                assert(dgroups[g as int].1.take(deletions@[g as int].1@.len() as int)
                    =~= dgroups[g as int].1);
                assert(dgroups.take(g + 1).drop_last() =~= dgroups.take(g as int));
                assert(dgroups.take(g + 1).last() == dgroups[g as int]);
                assert(self@.relations == apply_deletions(rels0, transaction, dgroups.take(g + 1)));
            }
            g += 1;
        }
        proof {
            assert(dgroups.take(deletions@.len() as int) =~= dgroups);
        }
        let ghost rels1 = self@.relations;
        let mut g: usize = 0;
        while g < insertions.len()
            invariant
                g <= insertions@.len(),
                igroups == insertions_view(insertions@),
                insert_groups_wf(igroups, rels0),
                rels0.len() == rels1.len(),
                forall|i: int|
                    0 <= i < rels0.len() ==> (#[trigger] rels1[i]).columns == rels0[i].columns,
                validator_wf(self@),
                self@.relations.len() == rels0.len(),
                forall|i: int|
                    0 <= i < rels0.len() ==> (#[trigger] self@.relations[i]).columns
                        == rels0[i].columns,
                self@.relations == apply_insertions(rels1, transaction, igroups.take(g as int)),
                self@.validations == vals0,
                self@.last_forget == mark0,
            decreases insertions@.len() - g,
        {
            let ghost base = self@.relations;
            let rel_id = insertions[g].0;
            let mut r: usize = 0;
            while r < insertions[g].1.len()
                invariant
                    g < insertions@.len(),
                    r <= insertions@[g as int].1@.len(),
                    igroups == insertions_view(insertions@),
                    insert_groups_wf(igroups, rels0),
                    rel_id == igroups[g as int].0,
                    rels0.len() == rels1.len(),
                    validator_wf(self@),
                    self@.relations.len() == rels0.len(),
                    forall|i: int|
                        0 <= i < rels0.len() ==> (#[trigger] self@.relations[i]).columns
                            == rels0[i].columns,
                    base == apply_insertions(rels1, transaction, igroups.take(g as int)),
                    self@.relations == insert_rows(
                        base,
                        transaction,
                        rel_id,
                        igroups[g as int].1.take(r as int),
                    ),
                    self@.validations == vals0,
                    self@.last_forget == mark0,
                decreases insertions@[g as int].1@.len() - r,
            {
                let ghost rows = igroups[g as int].1;
                let row = copy_columns(&insertions[g].1[r]);
                proof {
                    assert(igroups[g as int].0 < rels0.len());
                    assert(igroups[g as int].1[r as int] == insertions@[g as int].1@[r as int]@);
                    assert(row@ == rows[r as int]);
                }
                self.insert_row(transaction, rel_id, row);
                proof {
                    assert(rows.take(r + 1).drop_last() =~= rows.take(r as int));
                    assert(rows.take(r + 1).last() == rows[r as int]);
                    assert(self@.relations == insert_rows(base, transaction, rel_id, rows.take(r + 1)));
                }
                r += 1;
            }
            proof {
                assert(igroups[g as int].1.take(insertions@[g as int].1@.len() as int)
                    =~= igroups[g as int].1);
                assert(igroups.take(g + 1).drop_last() =~= igroups.take(g as int));
                assert(igroups.take(g + 1).last() == igroups[g as int]);
                assert(self@.relations == apply_insertions(rels1, transaction, igroups.take(g + 1)));
            }
            g += 1;
        }
        proof {
            assert(igroups.take(insertions@.len() as int) =~= igroups);
        }
    }

    /// Deletes one primary key: an existing live row leaves the live table
    /// and two tombstones join the history, the row with its original stamp
    /// and the same columns restamped with the deleting transaction;
    /// deleting an absent key is a silent no-op.
    pub fn delete_row(&mut self, transaction: u64, relation_id: u32, primary_key: u64)
        requires
            validator_wf(old(self)@),
            (relation_id as int) < old(self)@.relations.len(),
        ensures
            validator_wf(final(self)@),
            final(self)@.relations == old(self)@.relations.update(
                relation_id as int,
                delete_from(old(self)@.relations[relation_id as int], transaction, primary_key),
            ),
            final(self)@.validations == old(self)@.validations,
            final(self)@.last_forget == old(self)@.last_forget,
    {
        let ghost pre = self@;
        let ghost prel = pre.relations[relation_id as int];
        let rid = relation_id as usize;
        proof {
            assert(rel_wf(pre.relations[relation_id as int]));
            lemma_delete_from_wf(prel, transaction, primary_key);
        }
        match find_live(&self.relations[rid], primary_key) {
            Some(k) => {
                proof {
                    assert(has_live(prel, primary_key));
                    let li = live_index(prel, primary_key);
                    assert(0 <= li < prel.live.len() && pk(prel.live[li]) == primary_key);
                    assert(li == k as int);
                }
                let row = self.relations[rid].inserted.remove(k);
                let stamped = Row { columns: copy_columns(&row.columns), stamp: transaction };
                self.relations[rid].deleted.push(row);
                self.relations[rid].deleted.push(stamped);
                proof {
                    let drel = delete_from(prel, transaction, primary_key);
                    assert(self@.relations[relation_id as int].live =~= drel.live);
                    assert(self@.relations[relation_id as int].history =~= drel.history);
                    assert(self@.relations =~= pre.relations.update(relation_id as int, drel));
                }
            },
            None => {
                proof {
                    assert(delete_from(prel, transaction, primary_key) == prel);
                    assert(self@.relations =~= pre.relations.update(relation_id as int, prel));
                }
            },
        }
    }

    /// Releases every queued validation outcome with `validation_id` at or
    /// below the reference: the released entries leave the queue and their
    /// bytes are returned in queue order (validation-request arrival order,
    /// not sorted by id), an ASCII `'0'` for a true outcome and `'1'` for a
    /// false one; later entries stay queued for a future release.
    pub fn flush(&mut self, reference: u64) -> (out: Vec<u8>)
        ensures
            final(self)@.relations == old(self)@.relations,
            final(self)@.last_forget == old(self)@.last_forget,
            final(self)@.validations == kept_after(old(self)@.validations, reference),
            out@ == released_bytes(old(self)@.validations, reference),
    {
        let ghost q0 = self@.validations;
        let ghost pre = self@;
        let mut kept: Vec<(u64, bool)> = Vec::new();
        let mut out: Vec<u8> = Vec::new();
        let n = self.validations.len();
        let mut i: usize = 0;
        while i < n
            invariant
                self@ == pre,
                q0 == pre.validations,
                i <= q0.len(),
                n == q0.len(),
                kept@ == kept_after(q0.take(i as int), reference),
                out@ == released_bytes(q0.take(i as int), reference),
            decreases q0.len() - i,
        {
            let (vid, outcome) = self.validations[i];
            if vid <= reference {
                out.push(if outcome { 48u8 } else { 49u8 });
            } else {
                kept.push((vid, outcome));
            }
            proof {
                assert(q0.take(i + 1).drop_last() =~= q0.take(i as int));
                assert(q0.take(i + 1).last() == q0[i as int]);
                assert(kept@ =~= kept_after(q0.take(i + 1), reference));
                assert(out@ =~= released_bytes(q0.take(i + 1), reference));
            }
            i += 1;
        }
        proof {
            assert(q0.take(n as int) =~= q0);
        }
        self.validations = kept;
        out
    }

    /// Raises the retention mark to the reference if that does not lower it
    /// (a lower reference leaves the mark as it stands), then prunes every
    /// relation's history down to the versions stamped above the mark.  The
    /// live tables are kept whole, so a later validation whose range lies
    /// entirely above the mark is unaffected.
    pub fn forget(&mut self, reference: u64)
        requires
            validator_wf(old(self)@),
        ensures
            validator_wf(final(self)@),
            final(self)@.last_forget == if reference > old(self)@.last_forget {
                reference
            } else {
                old(self)@.last_forget
            },
            final(self)@.validations == old(self)@.validations,
            final(self)@.relations.len() == old(self)@.relations.len(),
            forall|i: int|
                0 <= i < old(self)@.relations.len() ==> final(self)@.relations[i]
                    == prune_relation(old(self)@.relations[i], final(self)@.last_forget),
    {
        if reference > self.last_forget {
            self.last_forget = reference;
        }
        let mark = self.last_forget;
        let ghost rels0 = self@.relations;
        let ghost vals0 = self@.validations;
        let num_rels = self.relations.len();
        let mut ri: usize = 0;
        while ri < num_rels
            invariant
                ri <= rels0.len(),
                num_rels == rels0.len(),
                self@.relations.len() == rels0.len(),
                self@.validations == vals0,
                self@.last_forget == mark,
                forall|i: int|
                    0 <= i < ri ==> self@.relations[i] == prune_relation(
                        #[trigger] rels0[i],
                        mark,
                    ),
                forall|i: int| ri <= i < rels0.len() ==> self@.relations[i] == rels0[i],
                forall|i: int| 0 <= i < rels0.len() ==> rel_wf(#[trigger] rels0[i]),
            decreases rels0.len() - ri,
        {
            let ghost pre_iter = self@.relations;
            let ghost prel = self@.relations[ri as int];
            let mut survivors: Vec<Row> = Vec::new();
            let n = self.relations[ri].deleted.len();
            let mut j: usize = 0;
            while j < n
                invariant
                    j <= prel.history.len(),
                    n == prel.history.len(),
                    ri < rels0.len(),
                    self@.relations.len() == rels0.len(),
                    self@.relations[ri as int] == prel,
                    rows_view(survivors@) == history_above(prel.history.take(j as int), mark),
                decreases n - j,
            {
                proof {
                    assert(prel.history[j as int] == self.relations@[ri as int].deleted@[
                        j as int
                    ]@);
                }
                let stamp = self.relations[ri].deleted[j].stamp;
                if stamp > mark {
                    let cols = copy_columns(&self.relations[ri].deleted[j].columns);
                    survivors.push(Row { columns: cols, stamp });
                }
                proof {
                    assert(prel.history.take(j + 1).drop_last() =~= prel.history.take(j as int));
                    assert(prel.history.take(j + 1).last() == prel.history[j as int]);
                    assert(rows_view(survivors@) =~= history_above(prel.history.take(j + 1), mark));
                }
                j += 1;
            }
            proof {
                assert(prel.history.take(n as int) =~= prel.history);
            }
            self.relations[ri].deleted = survivors;
            proof {
                assert(self@.relations[ri as int].live =~= prel.live);
                assert(self@.relations[ri as int] == prune_relation(prel, mark));
                assert(self@.relations =~= pre_iter.update(ri as int, prune_relation(prel, mark)));
            }
            ri += 1;
        }
        proof {
            assert forall|i: int| 0 <= i < self@.relations.len() implies rel_wf(
                #[trigger] self@.relations[i],
            ) by {
                lemma_prune_relation_wf(rels0[i], mark);
            }
        }
    }

    /// Whether no row version of the relation both lies in the inclusive
    /// transaction range and satisfies every predicate of the set; the
    /// candidates are the live rows and the history, and an empty predicate
    /// set matches every candidate.
    pub fn validate_predicates(
        &self,
        from_tx: u64,
        to_tx: u64,
        relation_id: u32,
        predicates: &Vec<Predicate>,
    ) -> (r: bool)
        requires
            validator_wf(self@),
            (relation_id as int) < self@.relations.len(),
            forall|j: int|
                0 <= j < predicates@.len() ==> (#[trigger] predicates@[j]).column
                    < self@.relations[relation_id as int].columns,
        ensures
            r == clause_clear(self@.relations[relation_id as int], from_tx, to_tx, predicates@),
    {
        let ghost rm = self@.relations[relation_id as int];
        proof {
            assert(rel_wf(self@.relations[relation_id as int]));
        }
        let rid = relation_id as usize;
        let rel = &self.relations[rid];
        proof {
            assert(rel@ == rm);
        }
        let mut i: usize = 0;
        while i < rel.inserted.len()
            invariant
                rel@ == rm,
                (relation_id as int) < self@.relations.len(),
                rm == self@.relations[relation_id as int],
                rel_wf(rm),
                i <= rm.live.len(),
                forall|j: int|
                    0 <= j < predicates@.len() ==> (#[trigger] predicates@[j]).column < rm.columns,
                forall|k: int|
                    0 <= k < i ==> !(stamped_in(#[trigger] rm.live[k], from_tx, to_tx)
                        && row_matches(rm.live[k], predicates@)),
            decreases rm.live.len() - i,
        {
            let row = &rel.inserted[i];
            proof {
                assert(row@ == rm.live[i as int]);
                assert(rm.live[i as int].columns.len() == rm.columns);
            }
            if row.stamp >= from_tx && row.stamp <= to_tx {
                if row_satisfies(row, predicates) {
                    proof {
                        assert((rm.live + rm.history)[i as int] == rm.live[i as int]);
                        assert(!clause_clear(rm, from_tx, to_tx, predicates@));
                    }
                    return false;
                }
            }
            i += 1;
        }
        let mut i: usize = 0;
        while i < rel.deleted.len()
            invariant
                rel@ == rm,
                (relation_id as int) < self@.relations.len(),
                rm == self@.relations[relation_id as int],
                rel_wf(rm),
                i <= rm.history.len(),
                forall|j: int|
                    0 <= j < predicates@.len() ==> (#[trigger] predicates@[j]).column < rm.columns,
                forall|k: int|
                    0 <= k < i ==> !(stamped_in(#[trigger] rm.history[k], from_tx, to_tx)
                        && row_matches(rm.history[k], predicates@)),
            decreases rm.history.len() - i,
        {
            let row = &rel.deleted[i];
            proof {
                assert(row@ == rm.history[i as int]);
                assert(rm.history[i as int].columns.len() == rm.columns);
            }
            if row.stamp >= from_tx && row.stamp <= to_tx {
                if row_satisfies(row, predicates) {
                    proof {
                        assert((rm.live + rm.history)[rm.live.len() + i as int]
                            == rm.history[i as int]);
                        assert(!clause_clear(rm, from_tx, to_tx, predicates@));
                    }
                    return false;
                }
            }
            i += 1;
        }
        proof {
            assert forall|k: int| 0 <= k < (rm.live + rm.history).len() implies !(stamped_in(
                #[trigger] (rm.live + rm.history)[k],
                from_tx,
                to_tx,
            ) && row_matches((rm.live + rm.history)[k], predicates@)) by {
                if k < rm.live.len() {
                    assert((rm.live + rm.history)[k] == rm.live[k]);
                } else {
                    assert((rm.live + rm.history)[k] == rm.history[k - rm.live.len()]);
                }
            }
        }
        true
    }

    /// Evaluates one validation request against the store as it stands and
    /// appends `(validation, outcome)` to the pending queue; the outcome is
    /// true iff no clause finds a row version of its relation stamped within
    /// the inclusive range that satisfies all its predicates.
    pub fn validate(
        &mut self,
        validation: u64,
        from_tx: u64,
        to_tx: u64,
        clauses: &Vec<(u32, Vec<Predicate>)>,
    )
        requires
            validator_wf(old(self)@),
            clauses_wf(clauses_view(clauses@), old(self)@.relations),
        ensures
            validator_wf(final(self)@),
            final(self)@.relations == old(self)@.relations,
            final(self)@.last_forget == old(self)@.last_forget,
            final(self)@.validations == old(self)@.validations.push(
                (
                    validation,
                    outcome_of(old(self)@.relations, from_tx, to_tx, clauses_view(clauses@)),
                ),
            ),
    {
        let ghost rels = self@.relations;
        let ghost cv = clauses_view(clauses@);
        let mut result = true;
        let mut i: usize = 0;
        while i < clauses.len()
            invariant
                i <= clauses@.len(),
                cv == clauses_view(clauses@),
                clauses_wf(cv, rels),
                validator_wf(self@),
                self@.relations == rels,
                result == (forall|k: int|
                    0 <= k < i ==> clause_clear(
                        rels[(#[trigger] cv[k]).0 as int],
                        from_tx,
                        to_tx,
                        cv[k].1,
                    )),
            decreases clauses@.len() - i,
        {
            proof {
                assert(cv[i as int] == (clauses@[i as int].0, clauses@[i as int].1@));
                assert(cv[i as int].0 < rels.len());
                assert forall|j: int| 0 <= j < clauses@[i as int].1@.len() implies (
                #[trigger] clauses@[i as int].1@[j]).column < self@.relations[clauses@[
                    i as int
                ].0 as int].columns by {
                    assert(cv[i as int].1[j] == clauses@[i as int].1@[j]);
                }
            }
            let clear = self.validate_predicates(from_tx, to_tx, clauses[i].0, &clauses[i].1);
            result = result && clear;
            i += 1;
        }
        proof {
            assert(result == outcome_of(rels, from_tx, to_tx, cv));
        }
        self.validations.push((validation, result));
        proof {
            assert(self@.validations =~= old(self)@.validations.push(
                (validation, outcome_of(rels, from_tx, to_tx, cv)),
            ));
        }
    }
}

} // verus!
