use sailfish::{range2d, Axis, IndexSpace};

#[test]
fn intersect_gives_the_common_rectangle() {
    let a = range2d(0, 10, 0, 10);
    let b = range2d(5, 15, -5, 3);
    assert_eq!(a.intersect(&b), Some(range2d(5, 10, 0, 3)));
    assert_eq!(a.intersect(&range2d(10, 12, 0, 10)), None);
    assert_eq!(a.intersect(&a), Some(a));
}

#[test]
fn extend_all_pads_every_side() {
    assert_eq!(range2d(0, 4, 2, 3).extend_all(2), range2d(-2, 6, 0, 5));
}

#[test]
fn strips_at_each_end() {
    let s = range2d(-2, 1026, -2, 1026);
    assert_eq!(s.keep_lower(2, Axis::I), range2d(-2, 0, -2, 1026));
    assert_eq!(s.keep_upper(2, Axis::I), range2d(1024, 1026, -2, 1026));
    assert_eq!(s.keep_lower(2, Axis::J), range2d(-2, 1026, -2, 0));
    assert_eq!(s.keep_upper(2, Axis::J), range2d(-2, 1026, 1024, 1026));
}

#[test]
fn len_and_containment() {
    let s = range2d(-1, 3, 4, 9);
    assert_eq!(s.len(), 20);
    assert!(s.contains_space(&range2d(0, 3, 4, 5)));
    assert!(!s.contains_space(&range2d(0, 4, 4, 5)));
}

#[test]
fn memory_region_inside_container() {
    let container = IndexSpace { i0: -2, i1: 6, j0: 10, j1: 20 };
    let r = range2d(1, 3, 12, 17).memory_region_in(&container);
    assert_eq!(r.start, (3, 2));
    assert_eq!(r.shape, (8, 10));
    assert_eq!(r.count, (2, 5));
}
