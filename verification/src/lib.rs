//! An in-memory transactional version store with predicate validation.
//!
//! The store keeps a set of relations, each with a fixed column count, a table
//! of live rows keyed by their first column (the primary key), and an
//! append-only history of tombstoned row versions.  Transactions apply
//! deletions and insertions; validation queries ask whether any row version
//! stamped within a transaction range satisfies a conjunctive predicate set;
//! outcomes are queued and later released in arrival order.
//!
//! A row's lifetime is recorded at its endpoints only: a version is visible
//! to a range query exactly when its stamp (the inserting transaction, or
//! for a tombstone the inserting and the deleting transaction) falls within
//! the range.  A row alive throughout a range that contains neither
//! endpoint is not a candidate.  Likewise, overwriting a live row records
//! no tombstone for the overwritten version.  Retention pruning keeps the
//! live tables whole and discards only history entries stamped at or below
//! the mark, so a validation whose range lies entirely above the mark is
//! unaffected (`laws::lemma_prune_preserves_validation`).

pub mod model;
pub mod predicate;
pub mod store;
pub mod laws;
