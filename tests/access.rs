use moss_hecs_schedule::{Access, AccessSet};

fn set(items: &[Access]) -> AccessSet {
    AccessSet::from_vec(items.to_vec())
}

#[test]
fn read_is_covered_by_read_or_write_write_only_by_write() {
    let reads = set(&[Access::ReadComponent(1)]);
    let writes = set(&[Access::WriteComponent(1)]);
    assert!(reads.has(&Access::ReadComponent(1)));
    assert!(writes.has(&Access::ReadComponent(1)));
    assert!(!reads.has(&Access::WriteComponent(1)));
    assert!(writes.has(&Access::WriteComponent(1)));
    assert!(!writes.has(&Access::ReadComponent(2)));
    assert!(!writes.has(&Access::ReadResource(1)));
    assert!(set(&[Access::WriteResource(3)]).has(&Access::ReadResource(3)));
}

#[test]
fn subset_is_reflexive_and_transitive() {
    let a = set(&[Access::ReadComponent(1)]);
    let b = set(&[Access::WriteComponent(1), Access::ReadComponent(2)]);
    let c = set(&[Access::WriteComponent(1), Access::WriteComponent(2), Access::ReadResource(9)]);
    for s in [&a, &b, &c] {
        assert!(s.is_subset(s));
    }
    assert!(a.is_subset(&b));
    assert!(b.is_subset(&c));
    assert!(a.is_subset(&c));
    assert!(!c.is_subset(&b));
    assert!(AccessSet::empty().is_subset(&a));
    assert!(!a.is_subset(&AccessSet::empty()));
}

#[test]
fn conflicts_is_symmetric() {
    let sets = [
        set(&[Access::ReadComponent(1)]),
        set(&[Access::WriteComponent(1)]),
        set(&[Access::ReadComponent(1), Access::ReadComponent(2)]),
        set(&[Access::WriteResource(1)]),
        set(&[Access::ReadResource(1)]),
        AccessSet::empty(),
    ];
    for a in &sets {
        for b in &sets {
            assert_eq!(a.conflicts(b), b.conflicts(a));
        }
    }
    assert!(!sets[0].conflicts(&sets[2]));
    assert!(sets[0].conflicts(&sets[1]));
    assert!(sets[1].conflicts(&sets[1]));
    assert!(!sets[1].conflicts(&sets[3]));
    assert!(sets[3].conflicts(&sets[4]));
    assert!(!sets[4].conflicts(&sets[4]));
    assert!(!sets[5].conflicts(&sets[1]));
}

#[test]
fn duplicates_collapse() {
    let once = set(&[Access::ReadComponent(4)]);
    let twice = set(&[Access::ReadComponent(4), Access::ReadComponent(4)]);
    assert!(once.is_subset(&twice));
    assert!(twice.is_subset(&once));
    assert_eq!(once.conflicts(&set(&[Access::WriteComponent(4)])), twice.conflicts(&set(&[Access::WriteComponent(4)])));
}

#[test]
fn union_and_with_add_descriptors() {
    let a = AccessSet::empty().with(Access::ReadComponent(1));
    let b = set(&[Access::WriteResource(2)]);
    let u = a.union(&b);
    assert_eq!(u.items, vec![Access::ReadComponent(1), Access::WriteResource(2)]);
    assert_eq!(u.len(), 2);
    assert_eq!(u.duplicate().items, u.items);
}
