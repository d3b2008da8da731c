use disk_mosaic::settings::{
    is_common_cloud_path, ColorScheme, Settings, ThemePreference, BIG_FILE_THRESHOLD,
};

#[test]
fn defaults_are_the_documented_ones() {
    let s = Settings::default();
    assert!(!s.dirty);
    assert_eq!(s.color_scheme(), ColorScheme::Egui);
    assert_eq!(s.theme(), ThemePreference::System);
    assert!(s.ignore_cloud_mounts);
    assert_eq!(s.big_file_threshold(), BIG_FILE_THRESHOLD);
    assert!(Settings::default_ignore_cloud_mounts());
}

#[test]
fn set_theme_marks_dirty() {
    let mut s = Settings::default();
    s.set_theme(ThemePreference::Dark);
    assert_eq!(s.theme(), ThemePreference::Dark);
    assert!(s.dirty);
}

#[test]
fn color_scheme_mut_replaces_the_scheme() {
    let mut s = Settings::default();
    s.color_scheme_mut(ColorScheme::Solarized);
    assert_eq!(s.color_scheme(), ColorScheme::Solarized);
}

#[test]
fn reset_big_file_threshold_restores_default() {
    let mut s = Settings::default();
    s.big_file_threshold = 42;
    s.reset_big_file_threshold();
    assert_eq!(s.big_file_threshold(), BIG_FILE_THRESHOLD);
    assert!(s.dirty);
}

#[test]
fn listed_paths_are_ignored() {
    let mut s = Settings::default();
    s.add_ignored_path("/data/big".to_owned());
    assert!(s.dirty);
    assert!(s.is_path_ignored(&"/data/big".to_owned()));
    assert!(s.is_path_ignored_with_home("/data/big", None));
    assert!(!s.is_path_ignored_with_home("/data/bigger", None));
}

#[test]
fn ignored_paths_mut_replaces_the_list() {
    let mut s = Settings::default();
    s.add_ignored_path("/a".to_owned());
    s.ignored_paths_mut(vec![]);
    assert!(!s.is_path_ignored_with_home("/a", None));
}

#[test]
fn special_mount_points_are_cloud_paths() {
    assert!(is_common_cloud_path("/mnt/data", None));
    assert!(is_common_cloud_path("/mnt", None));
    assert!(is_common_cloud_path("/media/usb", None));
    assert!(is_common_cloud_path("/run/user/1000", None));
    assert!(is_common_cloud_path("/snap/firefox", None));
    // a component boundary is required
    assert!(!is_common_cloud_path("/mntx/data", None));
    assert!(!is_common_cloud_path("/home/user/docs", None));
}

#[test]
fn provider_folders_under_home_are_cloud_paths() {
    let home = "/home/u".to_owned();
    assert!(is_common_cloud_path("/home/u/Dropbox", Some(&home)));
    assert!(is_common_cloud_path("/home/u/Dropbox/photos", Some(&home)));
    assert!(is_common_cloud_path("/home/u/OneDrive - Personal/x", Some(&home)));
    assert!(is_common_cloud_path(
        "/home/u/Library/Mobile Documents/com~apple~CloudDocs/a",
        Some(&home)
    ));
    assert!(!is_common_cloud_path("/home/u/Documents", Some(&home)));
    assert!(!is_common_cloud_path("/home/u/Dropboxx", Some(&home)));
    assert!(!is_common_cloud_path("/home/u", Some(&home)));
    assert!(!is_common_cloud_path("/home/user/Dropbox", Some(&home)));
}

#[test]
fn cloud_heuristics_can_be_disabled() {
    let mut s = Settings::default();
    s.ignore_cloud_mounts = false;
    assert!(!s.is_path_ignored_with_home("/mnt/data", None));
    s.ignore_cloud_mounts = true;
    assert!(s.is_path_ignored_with_home("/mnt/data", None));
}

#[test]
fn settings_file_lives_under_home() {
    assert_eq!(
        Settings::settings_file_in("/home/u"),
        "/home/u/.disk-mosaic/settings.json"
    );
    assert_eq!(Settings::settings_folder_in("/home/u"), "/home/u/.disk-mosaic");
    if let Some(file) = Settings::settings_file() {
        assert!(file.ends_with("/.disk-mosaic/settings.json"));
    }
}
