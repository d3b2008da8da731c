use disk_mosaic::analysis::AnalysisResult;
use disk_mosaic::node::{Node, NodeKind};
use disk_mosaic::panel::TreeMapPanel;
use disk_mosaic::scan::{scan_tree, RawEntry, ScanConsumer, ScanError, ScanEvent, ScanStatus};
use disk_mosaic::settings::Settings;

fn file(name: &str, logical: u64, physical: u64) -> RawEntry {
    RawEntry::File {
        name: name.to_owned(),
        logical,
        physical: Some(physical),
    }
}

fn children_of(node: &Node) -> &Vec<Node> {
    match &node.kind {
        NodeKind::Dir(children) => children,
        NodeKind::File => panic!("expected a directory"),
    }
}

#[test]
fn scenario_scan_and_zoom_round_trip() {
    // root holds file A(100), sparse file B, and dir C holding file D(300)
    let root = RawEntry::Dir {
        name: "root".to_owned(),
        entries: vec![
            file("A", 100, 100),
            file("B", 5, 0),
            RawEntry::Dir {
                name: "C".to_owned(),
                entries: vec![file("D", 300, 300)],
            },
        ],
    };
    let settings = Settings::default();
    let (tree, errors) = scan_tree(&root, "/tmp/root", &settings, None).unwrap();
    assert_eq!(errors, 0);
    assert_eq!(tree.size, 400);
    assert_eq!(tree.name, "root");
    let kids = children_of(&tree);
    assert_eq!(kids.len(), 3);
    // sorted descending: C(300), A(100), B(0)
    assert_eq!(kids[0].name, "C");
    assert_eq!(kids[0].size, 300);
    assert_eq!(kids[1].name, "A");
    assert_eq!(kids[1].size, 100);
    assert_eq!(kids[2].name, "B");
    assert_eq!(kids[2].size, 0);

    let mut result = AnalysisResult::new("/tmp/root".to_owned(), tree);
    let panel = TreeMapPanel::new(true);
    panel.zoom_in(&mut result, 0);
    assert_eq!(result.data_stack.len(), 2);
    assert_eq!(result.data_stack[1].name, "C");
    assert_eq!(children_of(&result.data_stack[0]).len(), 2);

    result.zoom_out();
    assert_eq!(result.data_stack.len(), 1);
    let top = &result.data_stack[0];
    assert_eq!(top.size, 400);
    let mut names: Vec<String> = children_of(top).iter().map(|n| n.name.clone()).collect();
    names.sort();
    assert_eq!(names, vec!["A".to_owned(), "B".to_owned(), "C".to_owned()]);
}

#[test]
fn scan_empty_directory_is_empty_and_zero() {
    let root = RawEntry::Dir {
        name: "empty".to_owned(),
        entries: vec![],
    };
    let settings = Settings::default();
    let (tree, errors) = scan_tree(&root, "/tmp/empty", &settings, None).unwrap();
    assert_eq!(tree.size, 0);
    assert_eq!(errors, 0);
    assert!(children_of(&tree).is_empty());
}

#[test]
fn sparse_file_contributes_zero() {
    let root = RawEntry::Dir {
        name: "r".to_owned(),
        entries: vec![file("sparse", 1000, 8)],
    };
    let settings = Settings::default();
    let (tree, _) = scan_tree(&root, "/tmp/r", &settings, None).unwrap();
    assert_eq!(tree.size, 0);
    assert_eq!(children_of(&tree)[0].size, 0);
}

#[test]
fn unknown_physical_size_falls_back_to_logical() {
    let root = RawEntry::Dir {
        name: "r".to_owned(),
        entries: vec![RawEntry::File {
            name: "f".to_owned(),
            logical: 123,
            physical: None,
        }],
    };
    let settings = Settings::default();
    let (tree, _) = scan_tree(&root, "/tmp/r", &settings, None).unwrap();
    assert_eq!(tree.size, 123);
}

#[test]
fn unreadable_entries_are_counted_and_skipped() {
    let root = RawEntry::Dir {
        name: "r".to_owned(),
        entries: vec![
            file("ok", 10, 10),
            RawEntry::Inaccessible {
                name: "locked".to_owned(),
            },
        ],
    };
    let settings = Settings::default();
    let (tree, errors) = scan_tree(&root, "/tmp/r", &settings, None).unwrap();
    assert_eq!(errors, 1);
    assert_eq!(tree.size, 10);
    assert_eq!(children_of(&tree).len(), 1);
}

#[test]
fn ignored_paths_are_skipped_silently() {
    let mut settings = Settings::default();
    settings.add_ignored_path("/tmp/r/skipme".to_owned());
    let root = RawEntry::Dir {
        name: "r".to_owned(),
        entries: vec![file("keep", 7, 7), file("skipme", 1000, 1000)],
    };
    let (tree, errors) = scan_tree(&root, "/tmp/r", &settings, None).unwrap();
    assert_eq!(errors, 0);
    assert_eq!(tree.size, 7);
    assert_eq!(children_of(&tree).len(), 1);
    assert_eq!(children_of(&tree)[0].name, "keep");
}

#[test]
fn unreadable_root_is_fatal() {
    let root = RawEntry::Inaccessible {
        name: "r".to_owned(),
    };
    let settings = Settings::default();
    let r = scan_tree(&root, "/tmp/r", &settings, None);
    match r {
        Err(e) => assert_eq!(e, ScanError::RootUnreadable),
        Ok(_) => panic!("expected a fatal error"),
    }
}

#[test]
fn file_root_is_rejected() {
    let root = file("f", 1, 1);
    let settings = Settings::default();
    let r = scan_tree(&root, "/tmp/f", &settings, None);
    match r {
        Err(e) => assert_eq!(e, ScanError::RootNotDirectory),
        Ok(_) => panic!("expected a fatal error"),
    }
}

#[test]
fn cancelled_scan_delivers_no_tree() {
    let mut consumer = ScanConsumer::new();
    consumer.on_event(ScanEvent::Progress { entries_seen: 17 }, "/tmp/r".to_owned());
    assert_eq!(consumer.status, ScanStatus::Running);
    assert!(consumer.result.is_none());
    consumer.on_event(ScanEvent::Cancelled, "/tmp/r".to_owned());
    assert_eq!(consumer.status, ScanStatus::Cancelled);
    assert!(consumer.result.is_none());
    // later events no longer change anything
    let tree = RawEntry::Dir {
        name: "r".to_owned(),
        entries: vec![],
    };
    let settings = Settings::default();
    let (node, errors) = scan_tree(&tree, "/tmp/r", &settings, None).unwrap();
    consumer.on_event(ScanEvent::Completed { root: node, errors }, "/tmp/r".to_owned());
    assert_eq!(consumer.status, ScanStatus::Cancelled);
    assert!(consumer.result.is_none());
}

#[test]
fn completed_scan_delivers_the_tree() {
    let tree = RawEntry::Dir {
        name: "r".to_owned(),
        entries: vec![file("a", 5, 5)],
    };
    let settings = Settings::default();
    let (node, errors) = scan_tree(&tree, "/tmp/r", &settings, None).unwrap();
    let mut consumer = ScanConsumer::new();
    consumer.on_event(ScanEvent::Completed { root: node, errors }, "/tmp/r".to_owned());
    assert_eq!(consumer.status, ScanStatus::Completed);
    let result = consumer.result.as_ref().unwrap();
    assert_eq!(result.root_path, "/tmp/r");
    assert_eq!(result.data_stack.len(), 1);
    assert_eq!(result.data_stack[0].size, 5);
}
