use prodash::key::SiblingLocation::{Above, AboveAndBelow, Below, NotFound};
use prodash::key::{Adjacency, Key, SiblingLocation};
use prodash::progress::Value;

fn entry(key: Key) -> (Key, Value) {
    (
        key,
        Value {
            name: "task".chars().collect(),
            progress: None,
        },
    )
}

#[test]
fn level_grows_with_each_child() {
    let root = Key::default();
    assert_eq!(root.level(), 0);
    let k1 = root.add_child(1);
    assert_eq!(k1.level(), 1);
    let k2 = k1.add_child(2);
    assert_eq!(k2.level(), 2);
    let k3 = k2.add_child(3);
    assert_eq!(k3.level(), 3);
    let k4 = k3.add_child(4);
    assert_eq!(k4.level(), 4);
    assert_eq!(Key::max_level(), 4);
}

#[test]
fn level_is_bounded_and_keys_share_their_own_ancestry() {
    let mut key = Key::default();
    for id in 0..6 {
        assert!(key.level() <= 4);
        assert!(key.shares_parent_with(&key, key.level()));
        key = key.add_child(id);
    }
}

#[test]
fn add_child_at_max_depth_reparents_instead_of_growing() {
    let deep = Key::default().add_child(1).add_child(2).add_child(3).add_child(4);
    assert_eq!(deep.level(), 4);
    let child = deep.add_child(9);
    assert_eq!(child.level(), 4);
    assert!(child.shares_parent_with(&deep, 3));
    assert_eq!(child.get(4), Some(&9));
    assert_eq!(child.get(3), Some(&3));
}

#[test]
fn shares_parent_with_depth_zero_is_trivially_true() {
    let a = Key::default().add_child(1);
    let b = Key::default().add_child(2);
    assert!(a.shares_parent_with(&b, 0));
    assert!(!a.shares_parent_with(&b, 1));
}

#[test]
fn shares_parent_with_needs_populated_slots() {
    let shallow = Key::default().add_child(1);
    let deep = shallow.add_child(2);
    assert!(shallow.shares_parent_with(&deep, 1));
    assert!(!shallow.shares_parent_with(&deep, 2));
}

#[test]
fn merge_combines_above_and_below() {
    let table = [
        (NotFound, Above, Above),
        (NotFound, Below, Below),
        (Above, NotFound, Above),
        (Above, Below, AboveAndBelow),
        (Below, Above, AboveAndBelow),
        (Above, Above, Above),
        (Below, Below, Below),
        (AboveAndBelow, Above, AboveAndBelow),
        (Below, AboveAndBelow, AboveAndBelow),
        (NotFound, NotFound, NotFound),
    ];
    for (start, other, want) in table {
        let mut loc = start;
        loc.merge(other);
        assert_eq!(loc, want);
    }
    assert_eq!(SiblingLocation::default(), NotFound);
}

#[test]
fn adjacency_level_counts_the_populated_prefix() {
    assert_eq!(Adjacency(NotFound, NotFound, NotFound, NotFound).level(), 0);
    assert_eq!(Adjacency(Above, NotFound, NotFound, NotFound).level(), 1);
    // a gap ends the count: the marks behind it do not raise the level
    assert_eq!(Adjacency(NotFound, Below, NotFound, NotFound).level(), 0);
    assert_eq!(Adjacency(Above, Above, AboveAndBelow, NotFound).level(), 3);
    assert_eq!(Adjacency(Above, NotFound, NotFound, Above).level(), 1);
    assert_eq!(Adjacency(Above, Below, AboveAndBelow, Above).level(), 4);
}

#[test]
fn adjacency_get_and_get_mut_address_levels_one_to_four() {
    let mut adj = Adjacency(Above, Below, AboveAndBelow, NotFound);
    assert_eq!(adj.get(0), None);
    assert_eq!(adj.get(1), Some(&Above));
    assert_eq!(adj.get(4), Some(&NotFound));
    assert_eq!(adj.get(5), None);
    if let Some(slot) = adj.get_mut(2) {
        *slot = Above;
    }
    assert_eq!(adj.get(2), Some(&Above));
    assert_eq!(adj.get_mut(0), None);
}

#[test]
fn two_siblings_report_the_boundary_above_and_each_other() {
    let c1 = Key::default().add_child(0);
    let c2 = Key::default().add_child(1);
    let rows = vec![entry(c1), entry(c2)];
    // the first child sees the root boundary above and its sibling below
    assert_eq!(Key::adjacency(&rows, 0), Adjacency(AboveAndBelow, NotFound, NotFound, NotFound));
    // the second child sees only its sibling above
    assert_eq!(Key::adjacency(&rows, 1), Adjacency(Above, NotFound, NotFound, NotFound));
}

#[test]
fn nested_children_report_their_parent_boundary() {
    let root = Key::default().add_child(0);
    let c1 = root.add_child(0);
    let c2 = root.add_child(1);
    let rows = vec![entry(root), entry(c1), entry(c2)];
    assert_eq!(Key::adjacency(&rows, 1), Adjacency(NotFound, AboveAndBelow, NotFound, NotFound));
    assert_eq!(Key::adjacency(&rows, 2), Adjacency(NotFound, Above, NotFound, NotFound));
}

#[test]
fn one_sided_interior_marks_collapse_to_not_found() {
    // a level-3 entry with a level-2 sibling only below its parent
    let root = Key::default().add_child(0);
    let p1 = root.add_child(0);
    let leaf = p1.add_child(0);
    let p2 = root.add_child(1);
    let rows = vec![entry(root), entry(p1), entry(leaf), entry(p2)];
    assert_eq!(Key::adjacency(&rows, 2), Adjacency(NotFound, NotFound, Above, NotFound));
    // and one with a level-2 sibling only above its parent
    let rows2 = vec![entry(root), entry(p1), entry(p2), entry(p2.add_child(0))];
    assert_eq!(Key::adjacency(&rows2, 3), Adjacency(NotFound, NotFound, Above, NotFound));
}

#[test]
fn sole_root_level_row_at_the_end_keeps_its_mark() {
    // the documented collapse exception: a root-level row that is also the
    // last row keeps its unconditional boundary mark (it has no interior
    // levels, so the exception itself can never alter a mark)
    let only = Key::default().add_child(0);
    let rows = vec![entry(only)];
    assert_eq!(Key::adjacency(&rows, 0), Adjacency(Above, NotFound, NotFound, NotFound));
}

#[test]
fn root_level_group_has_no_adjacency() {
    let rows = vec![entry(Key::default()), entry(Key::default().add_child(0))];
    assert_eq!(Key::adjacency(&rows, 0), Adjacency(NotFound, NotFound, NotFound, NotFound));
}

#[test]
fn key_get_addresses_only_populated_levels() {
    let k = Key::default().add_child(5).add_child(6);
    assert_eq!(k.get(0), None);
    assert_eq!(k.get(1), Some(&5));
    assert_eq!(k.get(2), Some(&6));
    assert_eq!(k.get(3), None);
    assert_eq!(k.get(5), None);
}
