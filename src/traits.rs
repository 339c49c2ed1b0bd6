use std::collections::BTreeSet;
use vstd::prelude::*;

verus! {

/// The identifier of a migration: unique within a migrator, totally ordered, and
/// not necessarily contiguous.
pub type Version = i64;

/// The metadata of a migration: the version that orders it and a description for
/// human readers. What a migration does is up to the adapter that runs it.
pub trait Migration {
    /// The version that this migration reports. An implementation verified with this
    /// library overrides it with what its `version` returns; the default only lets
    /// unverified implementations leave it out.
    closed spec fn spec_version(&self) -> Version {
        0
    }

    /// An ordered (but not necessarily sequential), unique identifier for this migration.
    /// Registered migrations are applied in ascending order by version.
    fn version(&self) -> (r: Version)
        ensures
            r == self.spec_version(),
    ;

    /// A message describing the effects of this migration.
    fn description(&self) -> &'static str;
}

/// The direction in which a migration is run.
#[derive(Debug, Clone, Copy, PartialEq, Eq, Structural)]
pub enum Direction {
    Down,
    Up,
}

/// An error returned while the migrator works with its adapter.
#[derive(Debug)]
pub enum Error<E> {
    /// The adapter failed to report the applied state.
    Adapter(E),
    /// The adapter failed while running one particular migration.
    Migration {
        /// The version of the migration that failed.
        version: Version,
        /// The description of the migration that failed.
        description: &'static str,
        /// The direction in which the failed migration was run.
        direction: Direction,
        /// The underlying error from the adapter.
        error: E,
    },
}

/// Whether `v` is the highest version of `s`.
pub open spec fn is_highest(s: Set<Version>, v: Version) -> bool {
    s.contains(v) && forall|w: Version| #[trigger] s.contains(w) ==> w <= v
}

/// The highest version of `s`, or `None` where `s` has none (it is empty).
pub open spec fn highest(s: Set<Version>) -> Option<Version> {
    if exists|v: Version| is_highest(s, v) {
        Some(choose|v: Version| is_highest(s, v))
    } else {
        None
    }
}

/// Connects the migrator to a storage technology. An adapter owns the set of
/// applied versions, `applied()`, and changes it only through a successful
/// `apply_migration` or `revert_migration`.
pub trait Adapter {
    /// The kind of migration that this adapter knows how to run.
    type MigrationType: Migration;

    /// The adapter's own error type.
    type Error;

    /// The versions currently reflected in storage. An implementation verified with
    /// this library overrides it with a view of its own record; the default only lets
    /// unverified implementations leave it out.
    closed spec fn applied(&self) -> Set<Version> {
        Set::empty()
    }

    /// Returns the highest applied version, or `None` if nothing is applied.
    fn current_version(&self) -> (r: Result<Option<Version>, Self::Error>)
        ensures
            r matches Ok(c) ==> c == highest(self.applied()),
    ;

    /// Returns the set of the versions of all currently applied migrations.
    fn migrated_versions(&self) -> (r: Result<BTreeSet<Version>, Self::Error>)
        ensures
            r matches Ok(s) ==> s@ == self.applied(),
    ;

    /// Applies `migration` and records its version as applied. Called only for a
    /// version that is not applied; a failure leaves the applied set as it was.
    fn apply_migration(&mut self, migration: &Self::MigrationType) -> (r: Result<(), Self::Error>)
        requires
            !old(self).applied().contains(migration.spec_version()),
        ensures
            r is Ok ==> final(self).applied() == old(self).applied().insert(migration.spec_version()),
            r is Err ==> final(self).applied() == old(self).applied(),
    ;

    /// Reverts `migration` and removes its version from the applied set. Called only
    /// for a version that is applied; a failure leaves the applied set as it was.
    fn revert_migration(&mut self, migration: &Self::MigrationType) -> (r: Result<(), Self::Error>)
        requires
            old(self).applied().contains(migration.spec_version()),
        ensures
            r is Ok ==> final(self).applied() == old(self).applied().remove(migration.spec_version()),
            r is Err ==> final(self).applied() == old(self).applied(),
    ;
}

} // verus!
