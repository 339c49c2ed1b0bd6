use std::collections::BTreeSet;
use vstd::prelude::*;

use crate::range::{within_range, within_range_spec};
use crate::traits::{highest, Adapter, Direction, Error, Migration, Version};

verus! {

/// Whether each version of `s` is below the next one.
pub open spec fn strictly_ascending(s: Seq<Version>) -> bool {
    forall|i: int, j: int| 0 <= i < j < s.len() ==> s[i] < s[j]
}

/// The registered versions that an upward migration to `to` brings in: every one
/// up to `to` inclusive, or every one where `to` is `None`.
pub open spec fn up_candidates(vs: Seq<Version>, to: Option<Version>) -> Set<Version> {
    Set::new(|v: Version| vs.contains(v) && within_range_spec(v, None, to))
}

/// The applied set after a complete upward migration to `to`.
pub open spec fn after_up(vs: Seq<Version>, applied: Set<Version>, to: Option<Version>) -> Set<
    Version,
> {
    applied.union(up_candidates(vs, to))
}

/// The registered versions that a downward migration to `to` takes out, where
/// `current` is the highest applied version: every one above `to` (exclusive) and
/// up to `current`, and none where nothing is applied.
pub open spec fn down_candidates(vs: Seq<Version>, to: Option<Version>, current: Option<Version>) -> Set<
    Version,
> {
    match current {
        None => Set::empty(),
        Some(c) => Set::new(|v: Version| vs.contains(v) && within_range_spec(v, to, Some(c))),
    }
}

/// The applied set after a complete downward migration to `to`.
pub open spec fn after_down(vs: Seq<Version>, applied: Set<Version>, to: Option<Version>) -> Set<
    Version,
> {
    applied.difference(down_candidates(vs, to, highest(applied)))
}

proof fn lemma_take_one_more(vs: Seq<Version>, i: int)
    requires
        0 <= i < vs.len(),
    ensures
        forall|v: Version| #[trigger]
            vs.take(i + 1).contains(v) <==> vs.take(i).contains(v) || v == vs[i],
{
    assert forall|v: Version| #[trigger] vs.take(i + 1).contains(v) implies vs.take(i).contains(v)
        || v == vs[i] by {
        let k = choose|k: int| 0 <= k < i + 1 && #[trigger] vs.take(i + 1)[k] == v;
        if k < i {
            assert(vs.take(i)[k] == v);
        }
    }
    assert forall|v: Version| vs.take(i).contains(v) || v == vs[i] implies #[trigger] vs.take(
        i + 1,
    ).contains(v) by {
        if v == vs[i] {
            assert(vs.take(i + 1)[i] == v);
        } else {
            let k = choose|k: int| 0 <= k < i && #[trigger] vs.take(i)[k] == v;
            assert(vs.take(i + 1)[k] == v);
        }
    }
}

proof fn lemma_skip_one_less(vs: Seq<Version>, i: int)
    requires
        0 <= i < vs.len(),
    ensures
        forall|v: Version| #[trigger]
            vs.skip(i).contains(v) <==> vs.skip(i + 1).contains(v) || v == vs[i],
{
    assert forall|v: Version| #[trigger] vs.skip(i).contains(v) implies vs.skip(i + 1).contains(v)
        || v == vs[i] by {
        let k = choose|k: int| 0 <= k < vs.len() - i && #[trigger] vs.skip(i)[k] == v;
        if k > 0 {
            assert(vs.skip(i + 1)[k - 1] == v);
        }
    }
    assert forall|v: Version| vs.skip(i + 1).contains(v) || v == vs[i] implies #[trigger] vs.skip(
        i,
    ).contains(v) by {
        if v == vs[i] {
            assert(vs.skip(i)[0] == v);
        } else {
            let k = choose|k: int| 0 <= k < vs.len() - i - 1 && #[trigger] vs.skip(i + 1)[k] == v;
            assert(vs.skip(i)[k + 1] == v);
        }
    }
}

proof fn lemma_prefix_is_below(vs: Seq<Version>, i: int)
    requires
        strictly_ascending(vs),
        0 <= i < vs.len(),
    ensures
        forall|v: Version| #[trigger] vs.take(i).contains(v) <==> vs.contains(v) && v < vs[i],
{
    assert forall|v: Version| #[trigger] vs.take(i).contains(v) implies vs.contains(v) && v < vs[i] by {
        let k = choose|k: int| 0 <= k < i && #[trigger] vs.take(i)[k] == v;
        assert(vs[k] == v);
    }
    assert forall|v: Version| vs.contains(v) && v < vs[i] implies #[trigger] vs.take(i).contains(v) by {
        let k = choose|k: int| 0 <= k < vs.len() && #[trigger] vs[k] == v;
        if k >= i {
            if k > i {
                assert(vs[i] < vs[k]);
            }
        }
        assert(vs.take(i)[k] == v);
    }
}

proof fn lemma_suffix_is_above(vs: Seq<Version>, i: int)
    requires
        strictly_ascending(vs),
        0 <= i < vs.len(),
    ensures
        forall|v: Version| #[trigger] vs.skip(i + 1).contains(v) <==> vs.contains(v) && v > vs[i],
{
    assert forall|v: Version| #[trigger] vs.skip(i + 1).contains(v) implies vs.contains(v) && v
        > vs[i] by {
        let k = choose|k: int| 0 <= k < vs.len() - i - 1 && #[trigger] vs.skip(i + 1)[k] == v;
        assert(vs[k + i + 1] == v);
    }
    assert forall|v: Version| vs.contains(v) && v > vs[i] implies #[trigger] vs.skip(
        i + 1,
    ).contains(v) by {
        let k = choose|k: int| 0 <= k < vs.len() && #[trigger] vs[k] == v;
        if k <= i {
            if k < i {
                assert(vs[k] < vs[i]);
            }
        }
        assert(vs.skip(i + 1)[k - i - 1] == v);
    }
}

/// Maintains an ordered collection of migrations and runs them through an adapter.
pub struct Migrator<T: Adapter> {
    adapter: T,
    migrations: Vec<(Version, Box<T::MigrationType>)>,
}

impl<T: Adapter> Migrator<T> {
    /// The registered migrations with their versions, in the order kept.
    pub closed spec fn entries(&self) -> Seq<(Version, T::MigrationType)> {
        self.migrations@.map_values(|e: (Version, Box<T::MigrationType>)| (e.0, *e.1))
    }

    /// The registered versions, in the order kept.
    pub open spec fn versions(&self) -> Seq<Version> {
        self.entries().map_values(|e: (Version, T::MigrationType)| e.0)
    }

    /// The adapter that this migrator runs migrations through.
    pub closed spec fn spec_adapter(&self) -> T {
        self.adapter
    }

    /// The versions that the adapter reports as applied.
    pub open spec fn applied(&self) -> Set<Version> {
        self.spec_adapter().applied()
    }

    /// The registry is ordered by ascending version, without duplicates, and each
    /// migration is kept under the version that it reports.
    pub open spec fn wf(&self) -> bool {
        &&& strictly_ascending(self.versions())
        &&& forall|i: int|
            0 <= i < self.entries().len() ==> (#[trigger] self.entries()[i]).1.spec_version()
                == self.entries()[i].0
    }

    /// Create a migrator with a given adapter.
    pub fn new(adapter: T) -> (r: Migrator<T>)
        ensures
            r.wf(),
            r.entries().len() == 0,
            r.spec_adapter() == adapter,
    {
        Migrator { adapter: adapter, migrations: Vec::new() }
    }

    /// Get a reference to the adapter.
    pub fn adapter(&self) -> (r: &T)
        ensures
            *r == self.spec_adapter(),
    {
        &self.adapter
    }

    /// Register a migration. Where a migration with the same version is already
    /// registered, the registry stays as it was and `false` is returned.
    pub fn register(&mut self, migration: Box<T::MigrationType>) -> (r: bool)
        requires
            old(self).wf(),
        ensures
            final(self).wf(),
            final(self).spec_adapter() == old(self).spec_adapter(),
            r == !old(self).versions().contains(migration.spec_version()),
            !r ==> final(self).entries() == old(self).entries(),
            r ==> exists|k: int|
                0 <= k <= old(self).entries().len() && final(self).entries() == old(
                    self,
                ).entries().insert(k, (migration.spec_version(), *migration)),
    {
        let version = migration.version();
        let mut i: usize = 0;
        while i < self.migrations.len() && self.migrations[i].0 < version
            invariant
                self.wf(),
                0 <= i <= self.migrations.len(),
                forall|j: int| 0 <= j < i ==> self.versions()[j] < version,
            decreases self.migrations.len() - i,
        {
            i = i + 1;
        }
        if i < self.migrations.len() && self.migrations[i].0 == version {
            assert(self.versions()[i as int] == version);
            return false;
        }
        assert(!self.versions().contains(version)) by {
            assert forall|j: int| 0 <= j < self.versions().len() implies self.versions()[j]
                != version by {
                if j > i {
                    assert(self.versions()[i as int] < self.versions()[j]);
                }
            }
        }
        let ghost old_entries = self.entries();
        let ghost old_versions = self.versions();
        assert forall|a: int, b: int| 0 <= a < b < old_versions.len() + 1 implies #[trigger] old_versions.insert(i as int, version)[a]
            < #[trigger] old_versions.insert(i as int, version)[b] by {
            if b < i {
            } else if a < i && b == i {
            } else if a < i {
                assert(old_versions[a] < old_versions[b - 1]);
            } else if a == i {
                assert(version < old_versions[i as int]);
                if b - 1 > i {
                    assert(old_versions[i as int] < old_versions[b - 1]);
                }
            } else {
            }
        }
        self.migrations.insert(i, (version, migration));
        assert(self.entries() =~= old_entries.insert(i as int, (version, *migration)));
        assert(self.versions() =~= old_versions.insert(i as int, version));
        true
    }

    /// Returns true if a migration with the provided version has been registered.
    pub fn version_registered(&self, version: Version) -> (r: bool)
        ensures
            r == self.versions().contains(version),
    {
        let mut i: usize = 0;
        while i < self.migrations.len()
            invariant
                0 <= i <= self.migrations.len(),
                forall|j: int| 0 <= j < i ==> self.versions()[j] != version,
            decreases self.migrations.len() - i,
        {
            if self.migrations[i].0 == version {
                assert(self.versions()[i as int] == version);
                return true;
            }
            i = i + 1;
        }
        false
    }

    /// Returns the set of all registered migration versions.
    pub fn registered_versions(&self) -> (r: BTreeSet<Version>)
        ensures
            r@ == self.versions().to_set(),
    {
        let mut set: BTreeSet<Version> = BTreeSet::new();
        let mut i: usize = 0;
        while i < self.migrations.len()
            invariant
                0 <= i <= self.migrations.len(),
                set@ == self.versions().take(i as int).to_set(),
            decreases self.migrations.len() - i,
        {
            let ghost before = set@;
            set.insert(self.migrations[i].0);
            assert(set@ == before.insert(self.versions()[i as int]));
            assert(self.versions().take(i + 1) == self.versions().take(i as int).push(
                self.versions()[i as int],
            ));
            proof {
                self.versions().take(i as int).lemma_push_to_set_commute(
                    self.versions()[i as int],
                );
            }
            i = i + 1;
        }
        assert(self.versions().take(i as int) == self.versions());
        set
    }

    /// Returns the lowest registered version, or `None` if no migrations have been
    /// registered.
    pub fn first_version(&self) -> (r: Option<Version>)
        ensures
            r == (if self.versions().len() == 0 {
                None
            } else {
                Some(self.versions()[0])
            }),
    {
        if self.migrations.len() == 0 {
            None
        } else {
            Some(self.migrations[0].0)
        }
    }

    /// Returns the highest registered version, or `None` if no migrations have been
    /// registered.
    pub fn last_version(&self) -> (r: Option<Version>)
        ensures
            r == (if self.versions().len() == 0 {
                None
            } else {
                Some(self.versions().last())
            }),
    {
        let n = self.migrations.len();
        if n == 0 {
            None
        } else {
            Some(self.migrations[n - 1].0)
        }
    }

    /// Returns the highest applied version, or `None` if nothing is applied.
    pub fn current_version(&self) -> (r: Result<Option<Version>, Error<T::Error>>)
        ensures
            r matches Ok(c) ==> c == highest(self.applied()),
            r matches Err(e) ==> e is Adapter,
    {
        match self.adapter.current_version() {
            Ok(ver) => Ok(ver),
            Err(err) => Err(Error::Adapter(err)),
        }
    }

    /// Returns the set of the versions of all currently applied migrations.
    pub fn migrated_versions(&self) -> (r: Result<BTreeSet<Version>, Error<T::Error>>)
        ensures
            r matches Ok(s) ==> s@ == self.applied(),
            r matches Err(e) ==> e is Adapter,
    {
        match self.adapter.migrated_versions() {
            Ok(vers) => Ok(vers),
            Err(err) => Err(Error::Adapter(err)),
        }
    }
    /// Applies, in ascending order, every registered migration up to `to` (inclusive;
    /// all of them where `to` is `None`) that is not applied yet, earlier versions
    /// registered after later ones had run included. Stops at the first failure.
    pub fn up(&mut self, to: Option<Version>) -> (r: Result<(), Error<T::Error>>)
        requires
            old(self).wf(),
        ensures
            final(self).wf(),
            final(self).entries() == old(self).entries(),
            r is Ok ==> final(self).applied() == after_up(old(self).versions(), old(self).applied(), to),
            r matches Err(Error::Adapter(_)) ==> final(self).applied() == old(self).applied(),
            r matches Err(Error::Migration { version, direction, .. }) ==> {
                &&& direction == Direction::Up
                &&& up_candidates(old(self).versions(), to).contains(version)
                &&& !old(self).applied().contains(version)
                &&& final(self).applied() == old(self).applied().union(
                    up_candidates(old(self).versions(), to).filter(|v: Version| v < version),
                )
            },
    {
        let migrated = match self.migrated_versions() {
            Ok(vers) => vers,
            Err(err) => return Err(err),
        };
        let ghost vs = self.versions();
        let ghost entries = self.entries();
        let ghost a0 = self.applied();
        let mut i: usize = 0;
        while i < self.migrations.len()
            invariant
                self.wf(),
                entries == old(self).entries(),
                vs == old(self).versions(),
                a0 == old(self).applied(),
                self.entries() == entries,
                self.versions() == vs,
                vs.len() == self.migrations.len(),
                0 <= i <= vs.len(),
                migrated@ == a0,
                self.applied() == a0.union(up_candidates(vs.take(i as int), to)),
            decreases vs.len() - i,
        {
            let version = self.migrations[i].0;
            proof {
                lemma_take_one_more(vs, i as int);
                lemma_prefix_is_below(vs, i as int);
            }
            assert(up_candidates(vs.take(i + 1), to) =~= if within_range_spec(version, None, to) {
                up_candidates(vs.take(i as int), to).insert(version)
            } else {
                up_candidates(vs.take(i as int), to)
            });
            if within_range(version, None, to) && !migrated.contains(&version) {
                assert(self.entries()[i as int].1.spec_version() == version);
                let res = self.adapter.apply_migration(&self.migrations[i].1);
                if let Err(err) = res {
                    assert(up_candidates(vs.take(i as int), to) =~= up_candidates(vs, to).filter(
                        |v: Version| v < version,
                    ));
                    return Err(
                        Error::Migration {
                            version: version,
                            description: self.migrations[i].1.description(),
                            direction: Direction::Up,
                            error: err,
                        },
                    );
                }
                assert(self.applied() =~= a0.union(up_candidates(vs.take(i + 1), to)));
            } else {
                assert(self.applied() =~= a0.union(up_candidates(vs.take(i + 1), to)));
            }
            i = i + 1;
        }
        assert(vs.take(i as int) == vs);
        Ok(())
    }
    /// Reverts, in descending order, every registered and applied migration above `to`
    /// (exclusive; all of them where `to` is `None`) and up to the current version.
    /// Nothing happens where no version is applied. Stops at the first failure.
    pub fn down(&mut self, to: Option<Version>) -> (r: Result<(), Error<T::Error>>)
        requires
            old(self).wf(),
        ensures
            final(self).wf(),
            final(self).entries() == old(self).entries(),
            r is Ok ==> final(self).applied() == after_down(old(self).versions(), old(self).applied(), to),
            r matches Err(Error::Adapter(_)) ==> final(self).applied() == old(self).applied(),
            r matches Err(Error::Migration { version, direction, .. }) ==> {
                let targets = down_candidates(old(self).versions(), to, highest(old(self).applied()));
                &&& direction == Direction::Down
                &&& targets.contains(version)
                &&& old(self).applied().contains(version)
                &&& final(self).applied() == old(self).applied().difference(
                    targets.filter(|v: Version| v > version),
                )
            },
    {
        let from = match self.current_version() {
            Ok(ver) => ver,
            Err(err) => return Err(err),
        };
        if from.is_none() {
            assert(self.applied().difference(Set::empty()) =~= self.applied());
            return Ok(());
        }
        let migrated = match self.migrated_versions() {
            Ok(vers) => vers,
            Err(err) => return Err(err),
        };
        let ghost vs = self.versions();
        let ghost entries = self.entries();
        let ghost a0 = self.applied();
        let ghost cands = down_candidates(vs, to, from);
        let mut i: usize = self.migrations.len();
        while i > 0
            invariant
                self.wf(),
                entries == old(self).entries(),
                vs == old(self).versions(),
                a0 == old(self).applied(),
                from == highest(a0),
                from is Some,
                cands == down_candidates(vs, to, from),
                self.entries() == entries,
                self.versions() == vs,
                vs.len() == self.migrations.len(),
                0 <= i <= vs.len(),
                migrated@ == a0,
                self.applied() == a0.difference(
                    cands.filter(|v: Version| vs.skip(i as int).contains(v)),
                ),
            decreases i,
        {
            i = i - 1;
            let version = self.migrations[i].0;
            proof {
                lemma_skip_one_less(vs, i as int);
                lemma_suffix_is_above(vs, i as int);
            }
            assert(cands.filter(|v: Version| vs.skip(i as int).contains(v)) =~= if cands.contains(
                version,
            ) {
                cands.filter(|v: Version| vs.skip(i + 1).contains(v)).insert(version)
            } else {
                cands.filter(|v: Version| vs.skip(i + 1).contains(v))
            });
            if within_range(version, to, from) && migrated.contains(&version) {
                assert(self.entries()[i as int].1.spec_version() == version);
                let res = self.adapter.revert_migration(&self.migrations[i].1);
                if let Err(err) = res {
                    assert(cands.filter(|v: Version| vs.skip(i + 1).contains(v)) =~= cands.filter(
                        |v: Version| v > version,
                    ));
                    return Err(
                        Error::Migration {
                            version: version,
                            description: self.migrations[i].1.description(),
                            direction: Direction::Down,
                            error: err,
                        },
                    );
                }
                assert(self.applied() =~= a0.difference(
                    cands.filter(|v: Version| vs.skip(i as int).contains(v)),
                ));
            } else {
                assert(self.applied() =~= a0.difference(
                    cands.filter(|v: Version| vs.skip(i as int).contains(v)),
                ));
            }
        }
        assert(vs.skip(0) =~= vs);
        assert(cands.filter(|v: Version| vs.skip(0).contains(v)) =~= cands);
        Ok(())
    }
}

} // verus!
