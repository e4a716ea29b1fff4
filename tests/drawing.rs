use poirot::canvas::{draw_con_diag, draw_rect_diag, label_rect, Connector, Curve, DrawOp};
use poirot::lattice::Lattice;
use poirot::rect::Rect;

fn leaf(text: &str, text_w: usize) -> Lattice {
    let mut n = Lattice::new(text.to_string());
    n.image_width = text_w;
    n.image_height = 18;
    n
}

fn labels(ops: &[DrawOp]) -> Vec<(Rect, String)> {
    ops.iter()
        .filter_map(|op| match op {
            DrawOp::Label(r, t) => Some((*r, t.clone())),
            _ => None,
        })
        .collect()
}

fn links(ops: &[DrawOp]) -> Vec<((i32, i32), (i32, i32))> {
    ops.iter()
        .filter_map(|op| match op {
            DrawOp::Link(a, b) => Some((*a, *b)),
            _ => None,
        })
        .collect()
}

#[test]
fn rect_edges() {
    let r = Rect::at_size(10, 20, 5, 3);
    assert_eq!((r.left(), r.top(), r.right(), r.bottom()), (10, 20, 14, 22));
}

#[test]
fn label_rect_pads_text() {
    let r = label_rect((500, 500), 113);
    assert_eq!(r, Rect { left: 500, top: 500, width: 133, height: 40 });
}

#[test]
fn single_leaf_scenario() {
    let mut root = leaf("hello, canvas", 113);
    let mut ops = Vec::new();
    assert!(root.draw_start(&mut ops, 500, 500));
    let ls = labels(&ops);
    assert_eq!(ls.len(), 1);
    assert_eq!(links(&ops).len(), 0);
    assert_eq!(ls[0].0.height, 40);
    assert_eq!(ls[0].0.bottom() - ls[0].0.top() + 1, 40);
    assert_eq!(ls[0].1, "hello, canvas");
    assert_eq!(root.rect, Some(ls[0].0));
}

#[test]
fn two_children_scenario() {
    let mut root = leaf("root", 30);
    root.add_sub(leaf("A", 10));
    root.add_sub(leaf("B", 10));
    let mut ops = Vec::new();
    assert!(root.draw_start(&mut ops, 100, 100));
    assert_eq!(root.h, 90);
    let ls = labels(&ops);
    assert_eq!(ls.len(), 3);
    assert_eq!(links(&ops).len(), 2);
    let a = ls[1].0;
    let b = ls[2].0;
    let centre = |r: Rect| (r.top() + r.bottom()) / 2;
    assert_eq!(centre(b) - centre(a), 50);
    // children sit right of the parent's box, past the horizontal gap
    assert_eq!(a.left(), ls[0].0.right() + 50);
    // root centre row is 119; children start 45 above it
    assert_eq!(a.top(), 119 - 45);
    // links leave the parent's right-edge centre and reach each child's left-edge centre
    assert_eq!(links(&ops)[0], ((ls[0].0.right(), 119), (a.left(), centre(a))));
    assert_eq!(root.sub_list[1].rect, Some(b));
    // order: root box, first child box, its link, second child box, its link
    assert!(matches!(ops[0], DrawOp::Label(_, _)));
    assert!(matches!(ops[1], DrawOp::Label(_, _)));
    assert!(matches!(ops[2], DrawOp::Link(_, _)));
}

#[test]
fn three_children_scenario() {
    let mut mid = leaf("m", 10);
    mid.add_sub(leaf("m1", 10));
    mid.add_sub(leaf("m2", 10));
    let mut root = leaf("root", 30);
    root.add_sub(leaf("a", 10));
    root.add_sub(mid);
    root.add_sub(leaf("c", 10));
    let mut ops = Vec::new();
    assert!(root.draw_start(&mut ops, 100, 200));
    assert_eq!(root.h, 3 * 40 + 2 * 10 + 25 + 25);
    let ls = labels(&ops);
    assert_eq!(ls.len(), 6);
    assert_eq!(links(&ops).len(), 5);
    let kids: Vec<Rect> = root.sub_list.iter().map(|c| c.rect.unwrap()).collect();
    for w in kids.windows(2) {
        assert!(w[0].bottom() < w[1].top());
    }
    let grand: Vec<Rect> = root.sub_list[1].sub_list.iter().map(|c| c.rect.unwrap()).collect();
    assert!(grand[0].bottom() < grand[1].top());
    assert_eq!(kids[0].top(), 219 - 95);
    assert_eq!(kids[1].top(), kids[0].top() + 75);
    assert_eq!(kids[2].top(), kids[1].top() + 75);
}

#[test]
fn single_child_level_with_parent() {
    let mut root = leaf("root", 30);
    root.add_sub(leaf("only", 20));
    let mut ops = Vec::new();
    assert!(root.draw_start(&mut ops, 0, 0));
    let ls = labels(&ops);
    assert_eq!(ls[1].0.top(), ls[0].0.top());
    assert_eq!(links(&ops), vec![((49, 19), (99, 19))]);
}

#[test]
fn connector_right_to_left_is_skipped() {
    assert_eq!(draw_con_diag((10, 5), (9, 5)), Connector::Skip);
    assert_eq!(draw_con_diag((100, 0), (0, 300)), Connector::Skip);
}

#[test]
fn connector_straight_lines() {
    assert_eq!(
        draw_con_diag((10, 5), (40, 5)),
        Connector::Line { start: (10, 5), end: (40, 5) }
    );
    assert_eq!(
        draw_con_diag((10, 5), (10, 50)),
        Connector::Line { start: (10, 5), end: (10, 50) }
    );
}

#[test]
fn connector_curves() {
    assert_eq!(
        draw_con_diag((10, 5), (40, 25)),
        Connector::Curve(Curve { start: (10, 5), end: (40, 25) })
    );
    assert_eq!(
        draw_con_diag((10, 25), (40, 5)),
        Connector::Curve(Curve { start: (10, 25), end: (40, 5) })
    );
}

#[test]
fn rect_diag_directions() {
    assert_eq!(draw_rect_diag(true, (0, 0), 10, 4), Curve { start: (0, 3), end: (9, 0) });
    assert_eq!(draw_rect_diag(false, (0, 0), 10, 4), Curve { start: (0, 0), end: (9, 3) });
}

#[test]
fn tree_above_the_top_edge_is_drawn() {
    let mut root = leaf("root", 30);
    root.add_sub(leaf("A", 10));
    root.add_sub(leaf("B", 10));
    let mut ops = Vec::new();
    // the first child starts 45 rows above the root's centre row 19
    assert!(root.draw_start(&mut ops, 0, 0));
    assert_eq!(labels(&ops).len(), 3);
    let a = root.sub_list[0].rect.unwrap();
    let b = root.sub_list[1].rect.unwrap();
    assert_eq!((a.top(), b.top()), (-26, 24));
    // centre rows round toward zero: (-26 + 13) / 2 == -6
    assert_eq!(links(&ops)[0], ((49, 19), (99, -6)));
    assert_eq!(links(&ops)[1], ((49, 19), (99, 43)));
    assert!(root.fits_at(0, 0));
}

#[test]
fn coordinates_past_i32_do_not_fit() {
    let root = leaf("root", 30);
    assert!(root.fits_at(i32::MAX - 49, 0));
    assert!(!root.fits_at(i32::MAX - 48, 0));
    assert!(root.fits_at(-1, -1));
    assert!(!root.fits_at(0, i32::MAX - 38));

    let mut tall = leaf("root", 30);
    tall.add_sub(leaf("A", 10));
    tall.add_sub(leaf("B", 10));
    let mut ops = Vec::new();
    // the first child would start above i32::MIN
    assert!(!tall.draw_start(&mut ops, 0, i32::MIN));
    assert!(ops.is_empty());
    assert!(tall.rect.is_none());
    assert_eq!(tall.h, 90);
}
