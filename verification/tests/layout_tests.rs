use disk_mosaic::layout::layout_items;
use disk_mosaic::node::{Bounds, Node, NodeKind};

fn item(name: &str, size: u64) -> Node {
    Node {
        name: name.to_owned(),
        size,
        bounds: Bounds { x: 0, y: 0, w: 0, h: 0 },
        kind: NodeKind::File,
    }
}

fn area(b: &Bounds) -> u64 {
    (b.w as u64) * (b.h as u64)
}

fn within(inner: &Bounds, outer: &Bounds) -> bool {
    outer.x <= inner.x
        && inner.x as u64 + inner.w as u64 <= outer.x as u64 + outer.w as u64
        && outer.y <= inner.y
        && inner.y as u64 + inner.h as u64 <= outer.y as u64 + outer.h as u64
}

#[test]
fn single_item_fills_the_rectangle() {
    let mut items = vec![item("a", 1)];
    let rect = Bounds { x: 0, y: 0, w: 8, h: 4 };
    layout_items(&mut items, rect);
    assert_eq!(items[0].bounds, Bounds { x: 0, y: 0, w: 8, h: 4 });
}

#[test]
fn two_items_split_proportionally_and_exactly() {
    let mut items = vec![item("a", 3), item("b", 1)];
    let rect = Bounds { x: 0, y: 0, w: 4, h: 4 };
    layout_items(&mut items, rect);
    assert_eq!(area(&items[0].bounds), 12);
    assert_eq!(area(&items[1].bounds), 4);
    assert!(within(&items[0].bounds, &rect));
    assert!(within(&items[1].bounds, &rect));
}

#[test]
fn total_area_equals_rect_area() {
    let sizes: Vec<u64> = vec![40, 25, 13, 9, 5, 3, 2, 1, 1];
    let mut items: Vec<Node> = sizes.iter().map(|s| item("x", *s)).collect();
    let rect = Bounds { x: 3, y: 7, w: 97, h: 53 };
    layout_items(&mut items, rect);
    let total: u64 = items.iter().map(|n| area(&n.bounds)).sum();
    assert_eq!(total, 97 * 53);
    for n in &items {
        assert!(within(&n.bounds, &rect));
    }
}

#[test]
fn zero_size_items_get_zero_area() {
    let mut items = vec![item("a", 5), item("b", 0), item("c", 0)];
    let rect = Bounds { x: 0, y: 0, w: 10, h: 10 };
    layout_items(&mut items, rect);
    assert_eq!(area(&items[0].bounds), 100);
    assert_eq!(area(&items[1].bounds), 0);
    assert_eq!(area(&items[2].bounds), 0);
}

#[test]
fn all_zero_items_get_zero_area_everywhere() {
    let mut items = vec![item("a", 0), item("b", 0)];
    let rect = Bounds { x: 0, y: 0, w: 10, h: 10 };
    layout_items(&mut items, rect);
    assert_eq!(area(&items[0].bounds), 0);
    assert_eq!(area(&items[1].bounds), 0);
}

#[test]
fn hit_test_finds_the_first_positive_hit() {
    let mut items = vec![item("zero", 0), item("left", 1), item("right", 1)];
    items[0].bounds = Bounds { x: 0, y: 0, w: 0, h: 0 };
    items[1].bounds = Bounds { x: 0, y: 0, w: 2, h: 4 };
    items[2].bounds = Bounds { x: 2, y: 0, w: 2, h: 4 };
    assert_eq!(disk_mosaic::layout::hit_test(&items, 1, 1), Some(1));
    assert_eq!(disk_mosaic::layout::hit_test(&items, 3, 3), Some(2));
    assert_eq!(disk_mosaic::layout::hit_test(&items, 9, 9), None);
    // the zero-area item covers the same corner but is never hit
    assert_eq!(disk_mosaic::layout::hit_test(&items, 0, 0), Some(1));
}

#[test]
fn layout_is_deterministic() {
    let sizes: Vec<u64> = vec![17, 11, 7, 5, 5, 2];
    let rect = Bounds { x: 0, y: 0, w: 64, h: 48 };
    let mut a: Vec<Node> = sizes.iter().map(|s| item("x", *s)).collect();
    let mut b: Vec<Node> = sizes.iter().map(|s| item("x", *s)).collect();
    layout_items(&mut a, rect);
    layout_items(&mut b, rect);
    for (m, n) in a.iter().zip(b.iter()) {
        assert_eq!(m.bounds, n.bounds);
    }
}
