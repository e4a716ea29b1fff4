use poirot::lattice::{Lattice, B_HEIGHT, G_HEIGHT};

fn leaf(text: &str) -> Lattice {
    Lattice::new(text.to_string())
}

#[test]
fn new_node_is_empty() {
    let n = leaf("root");
    assert_eq!(n.text, "root");
    assert!(n.rect.is_none());
    assert_eq!(n.sub_list.len(), 0);
    assert_eq!((n.h, n.u, n.d, n.sub_height), (0, 0, 0, 0));
}

#[test]
fn add_sub_returns_index() {
    let mut root = leaf("root");
    assert_eq!(root.add_sub(leaf("a")), 0);
    assert_eq!(root.add_sub(leaf("b")), 1);
    assert_eq!(root.add_sub_list("c".to_string()), 2);
    let names: Vec<&str> = root.sub_list.iter().map(|c| c.text.as_str()).collect();
    assert_eq!(names, vec!["a", "b", "c"]);
    assert_eq!(root.sub_list[2].sub_list.len(), 0);
}

#[test]
fn leaf_extent() {
    let mut n = leaf("x");
    n.h = 7;
    n.u = 3;
    n.d = 9;
    assert_eq!(n.calc_top_bottom(), 40);
    assert_eq!((n.h, n.u, n.d), (B_HEIGHT, 0, 0));
}

#[test]
fn single_child_does_not_grow() {
    let mut mid = leaf("mid");
    mid.add_sub(leaf("a"));
    mid.add_sub(leaf("b"));
    let mut root = leaf("root");
    root.add_sub(mid);
    assert_eq!(root.calc_top_bottom(), 40);
    assert_eq!(root.h, B_HEIGHT);
    assert_eq!(root.sub_list[0].h, 90);
    assert_eq!((root.u, root.d), (25, 25));
}

#[test]
fn two_leaves_symmetric() {
    let mut root = leaf("root");
    root.add_sub(leaf("A"));
    root.add_sub(leaf("B"));
    assert_eq!(root.calc_top_bottom(), 2 * B_HEIGHT + G_HEIGHT);
    assert_eq!((root.h, root.u, root.d), (90, 25, 25));
}

#[test]
fn three_children_count_middle_extents() {
    let mut mid = leaf("m");
    mid.add_sub(leaf("m1"));
    mid.add_sub(leaf("m2"));
    let mut root = leaf("root");
    root.add_sub(leaf("a"));
    root.add_sub(mid);
    root.add_sub(leaf("c"));
    // three boxes, two gaps, and the middle child's u + d
    assert_eq!(root.calc_top_bottom(), 3 * 40 + 2 * 10 + 25 + 25);
    assert_eq!((root.h, root.u, root.d), (190, 75, 75));
}

#[test]
fn uneven_children_extents() {
    // first child has a deep bottom, last child a tall top
    let mut first = leaf("f");
    first.add_sub(leaf("f1"));
    first.add_sub(leaf("f2"));
    let mut last = leaf("l");
    last.add_sub(leaf("l1"));
    last.add_sub(leaf("l2"));
    last.add_sub(leaf("l3"));
    let mut root = leaf("root");
    root.add_sub(first);
    root.add_sub(last);
    // last: h = 3*40 + 2*10 = 140, u = d = 70 - 20 = 50
    assert_eq!(root.calc_top_bottom(), 2 * 40 + 10 + 25 + 50);
    assert_eq!(root.h, 165);
    assert_eq!(root.u, 165 / 2 - 20 + 25);
    assert_eq!(root.d, 165 / 2 - 20 + 50);
}

#[test]
fn extent_pass_twice_is_same() {
    let mut mid = leaf("m");
    mid.add_sub(leaf("m1"));
    mid.add_sub(leaf("m2"));
    let mut root = leaf("root");
    root.add_sub(leaf("a"));
    root.add_sub(mid);
    root.add_sub(leaf("c"));
    root.calc_top_bottom();
    let first = (root.h, root.u, root.d, root.sub_list[1].h, root.sub_list[1].u);
    root.calc_top_bottom();
    let second = (root.h, root.u, root.d, root.sub_list[1].h, root.sub_list[1].u);
    assert_eq!(first, second);
}

#[test]
fn box_count_pass() {
    let mut single = leaf("s");
    single.add_sub(leaf("s1"));
    assert_eq!(single.calc_box_height(), 40);

    let mut root = leaf("root");
    root.add_sub(leaf("a"));
    root.add_sub(single);
    root.add_sub(leaf("c"));
    assert_eq!(root.calc_box_height(), 40 * 3 + 10 * 2);
    assert_eq!(root.sub_height, 140);
    assert_eq!(root.sub_list[1].sub_height, 40);
    assert_eq!(root.sub_list[0].sub_height, 40);
}

#[test]
fn box_count_single_child_passes_through() {
    let mut inner = leaf("i");
    inner.add_sub(leaf("i1"));
    inner.add_sub(leaf("i2"));
    let mut root = leaf("root");
    root.add_sub(inner);
    assert_eq!(root.calc_box_height(), 90);
    assert_eq!(root.sub_height, 90);
}

#[test]
fn checked_layout_matches_the_passes() {
    let mut mid = leaf("m");
    mid.add_sub(leaf("m1"));
    mid.add_sub(leaf("m2"));
    let mut root = leaf("root");
    root.add_sub(leaf("a"));
    root.add_sub(mid);
    root.add_sub(leaf("c"));
    assert_eq!(root.extent_checked(), Some((190, 75, 75)));
    assert_eq!(root.slots_checked(), Some(40 + 90 + 40 + 2 * 10));
    // the checks write nothing
    assert_eq!((root.h, root.u, root.d, root.sub_height), (0, 0, 0, 0));
    assert_eq!(root.calc_box_height(), 190);
    assert_eq!(root.calc_top_bottom(), 190);
    assert_eq!(leaf("x").extent_checked(), Some((40, 0, 0)));
    assert_eq!(leaf("x").slots_checked(), Some(40));
}

#[test]
fn passes_keep_each_others_fields() {
    let mut root = leaf("root");
    root.add_sub(leaf("a"));
    root.add_sub(leaf("b"));
    root.calc_top_bottom();
    root.calc_box_height();
    assert_eq!((root.h, root.u, root.d), (90, 25, 25));
    assert_eq!(root.sub_height, 90);
    root.calc_top_bottom();
    assert_eq!(root.sub_height, 90);
    assert_eq!(root.sub_list[0].sub_height, 40);
}
