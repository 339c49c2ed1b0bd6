use schemamama::{Adapter, Direction, Error, Migration, Migrator, Version};
use std::collections::BTreeSet;

struct Step {
    version: Version,
    description: &'static str,
}

impl Migration for Step {
    fn version(&self) -> Version {
        self.version
    }

    fn description(&self) -> &'static str {
        self.description
    }
}

fn step(version: Version) -> Box<Step> {
    Box::new(Step { version, description: "step" })
}

/// Records every call it gets, and fails where told to.
struct Tracking {
    applied: BTreeSet<Version>,
    calls: Vec<(Direction, Version)>,
    fail_on: Option<Version>,
    queries_fail: bool,
}

impl Tracking {
    fn new() -> Tracking {
        Tracking { applied: BTreeSet::new(), calls: Vec::new(), fail_on: None, queries_fail: false }
    }

    fn applied_list(&self) -> Vec<Version> {
        self.applied.iter().cloned().collect()
    }
}

impl Adapter for Tracking {
    type MigrationType = Step;
    type Error = String;

    fn current_version(&self) -> Result<Option<Version>, String> {
        if self.queries_fail {
            return Err("unreachable store".to_string());
        }
        Ok(self.applied.iter().last().cloned())
    }

    fn migrated_versions(&self) -> Result<BTreeSet<Version>, String> {
        if self.queries_fail {
            return Err("unreachable store".to_string());
        }
        Ok(self.applied.clone())
    }

    fn apply_migration(&mut self, migration: &Step) -> Result<(), String> {
        self.calls.push((Direction::Up, migration.version()));
        if self.fail_on == Some(migration.version()) {
            return Err("apply failed".to_string());
        }
        self.applied.insert(migration.version());
        Ok(())
    }

    fn revert_migration(&mut self, migration: &Step) -> Result<(), String> {
        self.calls.push((Direction::Down, migration.version()));
        if self.fail_on == Some(migration.version()) {
            return Err("revert failed".to_string());
        }
        self.applied.remove(&migration.version());
        Ok(())
    }
}

fn migrator_with(adapter: Tracking, versions: &[Version]) -> Migrator<Tracking> {
    let mut migrator = Migrator::new(adapter);
    for v in versions {
        assert!(migrator.register(step(*v)));
    }
    migrator
}

#[test]
fn registration_order_does_not_matter() {
    let a = migrator_with(Tracking::new(), &[30, 10, 20]);
    let b = migrator_with(Tracking::new(), &[20, 30, 10]);
    assert_eq!(a.first_version(), Some(10));
    assert_eq!(a.last_version(), Some(30));
    assert_eq!(a.registered_versions(), b.registered_versions());
    assert_eq!(a.registered_versions().into_iter().collect::<Vec<_>>(), vec![10, 20, 30]);
    let mut a = a;
    a.up(None).unwrap();
    assert_eq!(a.adapter().calls, vec![(Direction::Up, 10), (Direction::Up, 20), (Direction::Up, 30)]);
}

#[test]
fn negative_versions_are_ordered() {
    let m = migrator_with(Tracking::new(), &[5, -3, 0]);
    assert_eq!(m.first_version(), Some(-3));
    assert_eq!(m.last_version(), Some(5));
}

#[test]
fn duplicate_registration_keeps_the_original() {
    let mut adapter = Tracking::new();
    adapter.fail_on = Some(10);
    let mut migrator = Migrator::new(adapter);
    assert!(migrator.register(Box::new(Step { version: 10, description: "original" })));
    assert!(!migrator.register(Box::new(Step { version: 10, description: "duplicate" })));
    assert_eq!(migrator.registered_versions().len(), 1);
    match migrator.up(None) {
        Err(Error::Migration { version, description, direction, error }) => {
            assert_eq!(version, 10);
            assert_eq!(description, "original");
            assert_eq!(direction, Direction::Up);
            assert_eq!(error, "apply failed");
        }
        _ => panic!("expected a migration error"),
    }
}

#[test]
fn up_twice_applies_nothing_the_second_time() {
    let mut migrator = migrator_with(Tracking::new(), &[10, 20, 30]);
    migrator.up(Some(20)).unwrap();
    assert_eq!(migrator.adapter().calls.len(), 2);
    let before = migrator.adapter().applied_list();
    migrator.up(Some(20)).unwrap();
    assert_eq!(migrator.adapter().calls.len(), 2);
    assert_eq!(migrator.adapter().applied_list(), before);
    assert_eq!(before, vec![10, 20]);
}

#[test]
fn retroactive_registration_applies_only_the_new_one() {
    let mut migrator = migrator_with(Tracking::new(), &[20]);
    migrator.up(None).unwrap();
    assert_eq!(migrator.adapter().applied_list(), vec![20]);
    assert!(migrator.register(step(10)));
    migrator.up(None).unwrap();
    assert_eq!(migrator.adapter().calls, vec![(Direction::Up, 20), (Direction::Up, 10)]);
    assert_eq!(migrator.adapter().applied_list(), vec![10, 20]);
}

#[test]
fn up_then_down_restores_empty() {
    let mut migrator = migrator_with(Tracking::new(), &[10, 20, 30]);
    migrator.up(Some(30)).unwrap();
    assert_eq!(migrator.adapter().applied_list(), vec![10, 20, 30]);
    migrator.down(None).unwrap();
    assert!(migrator.adapter().applied_list().is_empty());
    assert_eq!(migrator.current_version().unwrap(), None);
}

#[test]
fn concrete_up_and_down_order() {
    let mut migrator = migrator_with(Tracking::new(), &[10, 20]);
    assert_eq!(migrator.current_version().unwrap(), None);
    migrator.up(Some(20)).unwrap();
    assert_eq!(migrator.adapter().calls, vec![(Direction::Up, 10), (Direction::Up, 20)]);
    assert_eq!(migrator.current_version().unwrap(), Some(20));
    migrator.down(Some(10)).unwrap();
    assert_eq!(migrator.adapter().calls[2..], [(Direction::Down, 20)]);
    assert_eq!(migrator.current_version().unwrap(), Some(10));
    migrator.down(None).unwrap();
    assert_eq!(migrator.adapter().calls[3..], [(Direction::Down, 10)]);
    assert_eq!(migrator.current_version().unwrap(), None);
}

#[test]
fn down_reverts_in_descending_order() {
    let mut migrator = migrator_with(Tracking::new(), &[10, 20, 30]);
    migrator.up(None).unwrap();
    migrator.down(None).unwrap();
    assert_eq!(
        migrator.adapter().calls[3..],
        [(Direction::Down, 30), (Direction::Down, 20), (Direction::Down, 10)]
    );
}

#[test]
fn down_skips_versions_never_applied() {
    let mut adapter = Tracking::new();
    adapter.applied.insert(20);
    let mut migrator = migrator_with(adapter, &[20, 30, 10]);
    migrator.down(None).unwrap();
    assert_eq!(migrator.adapter().calls, vec![(Direction::Down, 20)]);
    assert!(migrator.adapter().applied_list().is_empty());
}

#[test]
fn down_with_nothing_applied_does_nothing() {
    let mut migrator = migrator_with(Tracking::new(), &[10, 20]);
    migrator.down(None).unwrap();
    assert!(migrator.adapter().calls.is_empty());
}

#[test]
fn down_above_current_leaves_unapplied_alone() {
    let mut migrator = migrator_with(Tracking::new(), &[10, 20, 30]);
    migrator.up(Some(20)).unwrap();
    migrator.down(Some(10)).unwrap();
    assert_eq!(migrator.adapter().calls[2..], [(Direction::Down, 20)]);
    assert_eq!(migrator.adapter().applied_list(), vec![10]);
}

#[test]
fn up_with_bound_below_all_does_nothing() {
    let mut migrator = migrator_with(Tracking::new(), &[10, 20]);
    migrator.up(Some(5)).unwrap();
    assert!(migrator.adapter().calls.is_empty());
}

#[test]
fn failed_up_stops_the_batch() {
    let mut adapter = Tracking::new();
    adapter.fail_on = Some(20);
    let mut migrator = migrator_with(adapter, &[10, 20, 30]);
    match migrator.up(None) {
        Err(Error::Migration { version, direction, .. }) => {
            assert_eq!(version, 20);
            assert_eq!(direction, Direction::Up);
        }
        _ => panic!("expected a migration error"),
    }
    assert_eq!(migrator.adapter().calls, vec![(Direction::Up, 10), (Direction::Up, 20)]);
    assert_eq!(migrator.adapter().applied_list(), vec![10]);
}

#[test]
fn failed_down_stops_the_batch() {
    let mut adapter = Tracking::new();
    adapter.applied = [10, 20, 30].into_iter().collect();
    adapter.fail_on = Some(20);
    let mut migrator = migrator_with(adapter, &[10, 20, 30]);
    match migrator.down(None) {
        Err(Error::Migration { version, direction, error, .. }) => {
            assert_eq!(version, 20);
            assert_eq!(direction, Direction::Down);
            assert_eq!(error, "revert failed");
        }
        _ => panic!("expected a migration error"),
    }
    assert_eq!(migrator.adapter().calls, vec![(Direction::Down, 30), (Direction::Down, 20)]);
    assert_eq!(migrator.adapter().applied_list(), vec![10, 20]);
}

#[test]
fn failing_queries_give_adapter_errors() {
    let mut adapter = Tracking::new();
    adapter.queries_fail = true;
    let mut migrator = migrator_with(adapter, &[10]);
    assert!(matches!(migrator.current_version(), Err(Error::Adapter(_))));
    assert!(matches!(migrator.migrated_versions(), Err(Error::Adapter(_))));
    assert!(matches!(migrator.up(None), Err(Error::Adapter(_))));
    assert!(matches!(migrator.down(None), Err(Error::Adapter(_))));
    assert!(migrator.adapter().calls.is_empty());
}
