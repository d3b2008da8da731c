use disk_mosaic::pathutil::{absolute_path, name};

#[test]
fn test_name() {
    let path = "test.txt";
    assert_eq!(name(path), "test.txt");
}

#[test]
fn test_absolute_path() {
    let path = "/home/user/test.txt";
    assert_eq!(absolute_path(path), "/home/user/test.txt");
}

#[test]
fn test_name_with_unicode() {
    let path = "tést.txt";
    assert_eq!(name(path), "tést.txt");
}

#[test]
fn test_absolute_path_with_unicode() {
    let path = "/home/user/tést.txt";
    assert_eq!(absolute_path(path), "/home/user/tést.txt");
}

#[test]
fn test_name_takes_last_component() {
    assert_eq!(name("/a/b/c.txt"), "c.txt");
    assert_eq!(name("relative/d.log"), "d.log");
}

#[test]
fn test_name_normalizes_decomposed_input() {
    // 'e' followed by a combining acute accent must come back precomposed.
    let decomposed = "te\u{301}st.txt";
    let precomposed = "t\u{e9}st.txt";
    assert_ne!(decomposed, precomposed);
    assert_eq!(name(decomposed), precomposed);
    assert_eq!(absolute_path(decomposed), precomposed);
}
