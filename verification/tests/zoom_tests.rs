use disk_mosaic::analysis::AnalysisResult;
use disk_mosaic::node::{Bounds, Node, NodeKind};
use disk_mosaic::panel::TreeMapPanel;

fn file(name: &str, size: u64) -> Node {
    Node {
        name: name.to_owned(),
        size,
        bounds: Bounds { x: 0, y: 0, w: 0, h: 0 },
        kind: NodeKind::File,
    }
}

fn dir(name: &str, size: u64, children: Vec<Node>) -> Node {
    Node {
        name: name.to_owned(),
        size,
        bounds: Bounds { x: 0, y: 0, w: 0, h: 0 },
        kind: NodeKind::Dir(children),
    }
}

fn sample() -> AnalysisResult {
    let root = dir(
        "root",
        400,
        vec![dir("c", 300, vec![file("d", 300)]), file("a", 100), file("b", 0)],
    );
    AnalysisResult::new("/tmp/root".to_owned(), root)
}

fn child_count(result: &AnalysisResult, level: usize) -> usize {
    match &result.data_stack[level].kind {
        NodeKind::Dir(children) => children.len(),
        NodeKind::File => panic!("expected a directory"),
    }
}

#[test]
fn zoom_in_on_a_file_keeps_the_stack_depth() {
    let mut result = sample();
    let panel = TreeMapPanel::new(true);
    panel.zoom_in(&mut result, 1);
    assert_eq!(result.data_stack.len(), 1);
    assert_eq!(child_count(&result, 0), 3);
}

#[test]
fn zoom_in_on_a_dir_moves_it_to_the_stack() {
    let mut result = sample();
    let panel = TreeMapPanel::new(true);
    panel.zoom_in(&mut result, 0);
    assert_eq!(result.data_stack.len(), 2);
    assert_eq!(result.data_stack[1].name, "c");
    assert_eq!(child_count(&result, 0), 2);
}

#[test]
fn capped_zoom_does_nothing() {
    let mut result = sample();
    let panel = TreeMapPanel::new(false);
    panel.zoom_in(&mut result, 0);
    assert_eq!(result.data_stack.len(), 1);
    assert_eq!(child_count(&result, 0), 3);
}

#[test]
fn explicit_zoom_out_restores_the_child() {
    let mut result = sample();
    let panel = TreeMapPanel::new(true);
    panel.zoom_in(&mut result, 0);
    result.zoom_out();
    assert_eq!(result.data_stack.len(), 1);
    assert_eq!(result.data_stack[0].size, 400);
    assert_eq!(child_count(&result, 0), 3);
    let names: Vec<&str> = match &result.data_stack[0].kind {
        NodeKind::Dir(children) => children.iter().map(|n| n.name.as_str()).collect(),
        NodeKind::File => panic!("expected a directory"),
    };
    assert!(names.contains(&"a"));
    assert!(names.contains(&"b"));
    assert!(names.contains(&"c"));
}

#[test]
fn displayed_path_joins_the_stack_names() {
    let mut result = sample();
    assert_eq!(result.displayed_path(), "/tmp/root");
    let panel = TreeMapPanel::new(true);
    panel.zoom_in(&mut result, 0);
    assert_eq!(result.displayed_path(), "/tmp/root/c");
}

#[test]
fn scroll_up_reselects_the_parent_without_restoring() {
    let mut result = sample();
    let panel = TreeMapPanel::new(true);
    panel.zoom_in(&mut result, 0);
    assert_eq!(result.data_stack.len(), 2);
    panel.zoom(&mut result, None, 1);
    assert_eq!(result.data_stack.len(), 1);
    // the detached child stays detached: only a and b remain live
    assert_eq!(child_count(&result, 0), 2);
}

#[test]
fn scroll_down_zooms_into_the_hovered_child() {
    let mut result = sample();
    let panel = TreeMapPanel::new(true);
    panel.zoom(&mut result, Some(0), -1);
    assert_eq!(result.data_stack.len(), 2);
    panel.zoom(&mut result, None, -1);
    assert_eq!(result.data_stack.len(), 2);
}
