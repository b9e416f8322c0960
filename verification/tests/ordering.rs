use std::collections::{BTreeSet, HashMap};

use cargo_dyndrv::index_set::ascending;
use cargo_dyndrv::ordering::order_units;
use cargo_dyndrv::schedule::{can_order, order_all};
use cargo_dyndrv::unit_graph::{CompileMode, Dependency, Profile, Target, Unit};

fn unit(needs: &[usize]) -> Unit {
    Unit {
        pkg_id: String::new(),
        target: Target {
            name: String::new(),
            edition: String::new(),
            crate_types: Vec::new(),
            src_path: String::new(),
        },
        profile: Profile { opt_level: String::new(), debuginfo: String::new() },
        platform: None,
        mode: CompileMode::Build,
        features: Vec::new(),
        dependencies: needs
            .iter()
            .map(|index| Dependency { index: *index, extern_crate_name: String::new() })
            .collect(),
    }
}

fn graph(needs: &[&[usize]]) -> Vec<Unit> {
    needs.iter().map(|n| unit(n)).collect()
}

fn set(indices: &[usize]) -> BTreeSet<usize> {
    indices.iter().copied().collect()
}

#[test]
fn dependencies_stand_before_dependents() {
    let units = graph(&[&[1, 2], &[3], &[3], &[]]);
    let mut table = HashMap::new();
    let mut order = Vec::new();
    order_units(&mut table, &mut order, &units, 0);
    assert_eq!(order, vec![3, 1, 2, 0]);
    assert_eq!(table[&0], set(&[1, 2, 3]));
    assert_eq!(table[&1], set(&[3]));
    assert_eq!(table[&2], set(&[3]));
    assert_eq!(table[&3], set(&[]));
}

#[test]
fn ordered_units_are_left_alone() {
    let units = graph(&[&[1], &[], &[0]]);
    let mut table = HashMap::new();
    let mut order = Vec::new();
    order_units(&mut table, &mut order, &units, 0);
    order_units(&mut table, &mut order, &units, 0);
    assert_eq!(order, vec![1, 0]);
    order_units(&mut table, &mut order, &units, 2);
    assert_eq!(order, vec![1, 0, 2]);
    assert_eq!(table[&2], set(&[0, 1]));
}

#[test]
fn table_takes_what_it_holds_for_granted() {
    let units = graph(&[&[1], &[9]]);
    let mut table = HashMap::new();
    table.insert(1, set(&[7]));
    let mut order = Vec::new();
    order_units(&mut table, &mut order, &units, 0);
    assert_eq!(order, vec![0]);
    assert_eq!(table[&0], set(&[1, 7]));
}

#[test]
fn roots_share_their_dependencies() {
    let units = graph(&[&[2], &[2, 0], &[], &[]]);
    let (order, below) = order_all(&units, &[1, 0]);
    assert_eq!(order, vec![2, 0, 1]);
    assert_eq!(below.len(), 3);
    assert_eq!(below[&1], set(&[0, 2]));
}

#[test]
fn chains_are_followed_to_their_end() {
    let units = graph(&[&[1], &[2], &[3], &[]]);
    let (order, below) = order_all(&units, &[0]);
    assert_eq!(order, vec![3, 2, 1, 0]);
    for (at, unit) in order.iter().enumerate() {
        for dep in &below[unit] {
            assert!(order[..at].contains(dep));
            assert_ne!(dep, unit);
        }
    }
}

#[test]
fn circles_cannot_be_ordered() {
    assert!(can_order(&graph(&[&[1], &[]]), &[0, 1]));
    assert!(can_order(&graph(&[]), &[]));
    assert!(!can_order(&graph(&[&[1], &[0]]), &[0]));
    assert!(!can_order(&graph(&[&[0]]), &[0]));
    assert!(!can_order(&graph(&[&[4]]), &[0]));
    assert!(!can_order(&graph(&[&[]]), &[1]));
    assert!(can_order(&graph(&[&[], &[1]]), &[0]));
}

#[test]
fn sets_are_listed_from_the_smallest() {
    assert_eq!(ascending(&set(&[5, 1, 3])), vec![1, 3, 5]);
    assert_eq!(ascending(&set(&[])), Vec::<usize>::new());
}
