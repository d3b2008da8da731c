use vstd::prelude::*;

use crate::strutil::{
    component_prefixed, find_component_end, first_component_end, has_component_prefix, str_eq,
};
use vstd::string::{StrSliceExecFns, StringExecFns};

verus! {

/// Files at least this large are displayed as a block of their own.
pub const BIG_FILE_THRESHOLD: u64 = 10000000;

#[derive(Debug, Clone, Copy, PartialEq, Eq, Structural, Hash, Default)]
pub enum ColorScheme {
    #[default]
    Egui,
    Solarized,
}

#[derive(Debug, Clone, Copy, PartialEq, Eq, Structural, Hash, Default)]
pub enum ThemePreference {
    #[default]
    System,
    Dark,
    Light,
}

/// The user-facing configuration the core consults: which paths a scan
/// must skip, and a few display preferences.
pub struct Settings {
    /// The settings need to be written back.
    pub dirty: bool,
    pub color_scheme: ColorScheme,
    pub theme: ThemePreference,
    /// Paths to skip while scanning (cloud drives and the like).
    pub ignored_path: Vec<String>,
    /// Also skip well-known cloud mount points.
    pub ignore_cloud_mounts: bool,
    /// Files smaller than this are folded into a single block.
    pub big_file_threshold: u64,
}

/// The name of a top-level directory under the home directory that a
/// well-known cloud provider uses.
pub open spec fn spec_cloud_name(name: Seq<char>) -> bool {
    ||| name == "Dropbox"@
    ||| name == "OneDrive"@
    ||| name == "OneDrive - Personal"@
    ||| name == "Google Drive"@
    ||| name == "Google Drive (Shared)"@
    ||| name == "Box"@
    ||| name == "Nextcloud"@
    ||| name == "SynologyDrive"@
    ||| name == "pCloud Drive"@
    ||| name == "MEGA"@
}

/// A path that is heuristically a cloud or special mount: one of the
/// special absolute mount points, the iCloud documents folder under the
/// home directory, or a well-known provider's folder directly under the
/// home directory.
pub open spec fn spec_common_cloud(path: Seq<char>, home: Option<Seq<char>>) -> bool {
    ||| component_prefixed(path, "/run/user"@)
    ||| component_prefixed(path, "/media"@)
    ||| component_prefixed(path, "/mnt"@)
    ||| component_prefixed(path, "/snap"@)
    ||| match home {
        Some(h) => {
            &&& component_prefixed(path, h)
            &&& path.len() > h.len()
            &&& {
                let rest = path.skip(h.len() + 1 as int);
                ||| component_prefixed(rest, "Library/Mobile Documents/com~apple~CloudDocs"@)
                ||| spec_cloud_name(rest.take(first_component_end(rest, 0)))
            }
        },
        None => false,
    }
}

/// Whether a path is heuristically a cloud or special mount, given the
/// home directory (if the platform has one).
pub fn is_common_cloud_path(path: &str, home: Option<&String>) -> (r: bool)
    ensures
        r == spec_common_cloud(path@, opt_str_view(home)),
{
    if has_component_prefix(path, "/run/user") || has_component_prefix(path, "/media")
        || has_component_prefix(path, "/mnt") || has_component_prefix(path, "/snap") {
        return true;
    }
    match home {
        Some(h) => {
            let lh = h.as_str().unicode_len();
            let lp = path.unicode_len();
            if !has_component_prefix(path, h.as_str()) || lp <= lh {
                return false;
            }
            let rest = path.substring_char(lh + 1, lp);
            proof {
                assert(rest@ =~= path@.skip(h@.len() + 1 as int));
            }
            if has_component_prefix(rest, "Library/Mobile Documents/com~apple~CloudDocs") {
                return true;
            }
            let ce = find_component_end(rest, 0);
            let comp = rest.substring_char(0, ce);
            proof {
                assert(comp@ =~= rest@.take(first_component_end(rest@, 0)));
            }
            str_eq(comp, "Dropbox") || str_eq(comp, "OneDrive")
                || str_eq(comp, "OneDrive - Personal") || str_eq(comp, "Google Drive")
                || str_eq(comp, "Google Drive (Shared)") || str_eq(comp, "Box")
                || str_eq(comp, "Nextcloud") || str_eq(comp, "SynologyDrive")
                || str_eq(comp, "pCloud Drive") || str_eq(comp, "MEGA")
        },
        None => false,
    }
}

pub open spec fn opt_str_view(o: Option<&String>) -> Option<Seq<char>> {
    match o {
        Some(s) => Some(s@),
        None => None,
    }
}

/// Relies on home::home_dir: the home directory the platform reports, if
/// any; the result depends on the environment, so nothing further is
/// assumed of it.
#[verifier::external_body]
pub fn read_home_dir() -> (r: Option<String>) {
    home::home_dir().and_then(|p| p.to_str().map(|s| s.to_owned()))
}

impl Settings {
    pub fn color_scheme(&self) -> (r: ColorScheme)
        ensures
            r == self.color_scheme,
    {
        self.color_scheme
    }

    /// Mutable access to the colour scheme: store a new value in place.
    pub fn color_scheme_mut(&mut self, color_scheme: ColorScheme)
        ensures
            final(self).color_scheme == color_scheme,
            final(self).theme == old(self).theme,
            final(self).dirty == old(self).dirty,
            final(self).ignored_path == old(self).ignored_path,
            final(self).ignore_cloud_mounts == old(self).ignore_cloud_mounts,
            final(self).big_file_threshold == old(self).big_file_threshold,
    {
        self.color_scheme = color_scheme;
    }

    pub fn theme(&self) -> (r: ThemePreference)
        ensures
            r == self.theme,
    {
        self.theme
    }

    pub fn set_theme(&mut self, theme: ThemePreference)
        ensures
            final(self).theme == theme,
            final(self).dirty == true,
            final(self).color_scheme == old(self).color_scheme,
            final(self).ignored_path == old(self).ignored_path,
            final(self).ignore_cloud_mounts == old(self).ignore_cloud_mounts,
            final(self).big_file_threshold == old(self).big_file_threshold,
    {
        self.theme = theme;
        self.dirty = true;
    }

    /// Whether the configured ignore list names this exact path.
    pub open spec fn spec_listed(self, path: Seq<char>) -> bool {
        exists|k: int| 0 <= k < self.ignored_path@.len() && #[trigger] self.ignored_path@[k]@
            == path
    }

    /// Whether a scan must skip this path, given the home directory.
    pub open spec fn spec_path_ignored(self, path: Seq<char>, home: Option<Seq<char>>) -> bool {
        ||| self.spec_listed(path)
        ||| (self.ignore_cloud_mounts && spec_common_cloud(path, home))
    }

    pub fn add_ignored_path(&mut self, path: String)
        ensures
            final(self).ignored_path@ == old(self).ignored_path@.push(path),
            final(self).dirty == true,
            final(self).color_scheme == old(self).color_scheme,
            final(self).theme == old(self).theme,
            final(self).ignore_cloud_mounts == old(self).ignore_cloud_mounts,
            final(self).big_file_threshold == old(self).big_file_threshold,
    {
        self.ignored_path.push(path);
        self.dirty = true;
    }

    /// The scan-time skip decision as a pure function of the settings
    /// snapshot, the path, and the home directory.
    pub fn is_path_ignored_with_home(&self, path: &str, home: Option<&String>) -> (r: bool)
        ensures
            r == self.spec_path_ignored(path@, opt_str_view(home)),
    {
        let mut k: usize = 0;
        let n = self.ignored_path.len();
        while k < n
            invariant
                k <= n,
                n == self.ignored_path@.len(),
                forall|m: int| 0 <= m < k ==> #[trigger] self.ignored_path@[m]@ != path@,
            decreases n - k,
        {
            if str_eq(self.ignored_path[k].as_str(), path) {
                return true;
            }
            k = k + 1;
        }
        if self.ignore_cloud_mounts && is_common_cloud_path(path, home) {
            return true;
        }
        false
    }

    /// The skip decision as the scanner uses it: the configured list, and
    /// the cloud heuristics against whatever home directory the platform
    /// reports right now.
    pub fn is_path_ignored(&self, path: &String) -> (r: bool)
        ensures
            exists|h: Option<Seq<char>>| r == self.spec_path_ignored(path@, h),
            self.spec_listed(path@) ==> r,
    {
        let home = read_home_dir();
        let home_ref = home.as_ref();
        let r = self.is_path_ignored_with_home(path.as_str(), home_ref);
        proof {
            assert(r == self.spec_path_ignored(path@, opt_str_view(home_ref)));
        }
        r
    }

    /// Mutable access to the ignore list: store an edited list in place.
    pub fn ignored_paths_mut(&mut self, ignored_path: Vec<String>)
        ensures
            final(self).ignored_path == ignored_path,
            final(self).color_scheme == old(self).color_scheme,
            final(self).theme == old(self).theme,
            final(self).dirty == old(self).dirty,
            final(self).ignore_cloud_mounts == old(self).ignore_cloud_mounts,
            final(self).big_file_threshold == old(self).big_file_threshold,
    {
        self.ignored_path = ignored_path;
    }

    pub fn big_file_threshold(&self) -> (r: u64)
        ensures
            r == self.big_file_threshold,
    {
        self.big_file_threshold
    }

    pub fn reset_big_file_threshold(&mut self)
        ensures
            final(self).big_file_threshold == BIG_FILE_THRESHOLD,
            final(self).dirty == true,
            final(self).color_scheme == old(self).color_scheme,
            final(self).theme == old(self).theme,
            final(self).ignored_path == old(self).ignored_path,
            final(self).ignore_cloud_mounts == old(self).ignore_cloud_mounts,
    {
        self.big_file_threshold = BIG_FILE_THRESHOLD;
        self.dirty = true;
    }

    pub fn default_ignore_cloud_mounts() -> (r: bool)
        ensures
            r == true,
    {
        true
    }

    /// The settings folder inside a given home directory.
    pub fn settings_folder_in(home: &str) -> (r: String)
        ensures
            r@ == home@ + "/.disk-mosaic"@,
    {
        let mut folder = home.to_owned();
        folder.append("/.disk-mosaic");
        folder
    }

    /// The settings file inside a given home directory.
    pub fn settings_file_in(home: &str) -> (r: String)
        ensures
            r@ == home@ + "/.disk-mosaic"@ + "/settings.json"@,
    {
        let mut file = Self::settings_folder_in(home);
        file.append("/settings.json");
        file
    }

    /// Where the settings folder lives, if the platform reports a home
    /// directory; the location depends on the environment.
    pub fn settings_folder() -> (r: Option<String>)
        ensures
            r is Some ==> exists|h: Seq<char>| r->0@ == h + "/.disk-mosaic"@,
    {
        match read_home_dir() {
            Some(home) => Some(Self::settings_folder_in(home.as_str())),
            None => None,
        }
    }

    /// Where the settings file lives, if the platform reports a home
    /// directory; the location depends on the environment.
    pub fn settings_file() -> (r: Option<String>)
        ensures
            r is Some ==> exists|h: Seq<char>| r->0@ == h + "/.disk-mosaic"@ + "/settings.json"@,
    {
        match read_home_dir() {
            Some(home) => Some(Self::settings_file_in(home.as_str())),
            None => None,
        }
    }
}

impl Default for Settings {
    /// The in-memory defaults; loading a stored settings file is the
    /// caller's concern.
    fn default() -> (r: Settings)
        ensures
            r.dirty == false,
            r.color_scheme == ColorScheme::Egui,
            r.theme == ThemePreference::System,
            r.ignored_path@.len() == 0,
            r.ignore_cloud_mounts == true,
            r.big_file_threshold == BIG_FILE_THRESHOLD,
    {
        Settings {
            dirty: false,
            color_scheme: ColorScheme::Egui,
            theme: ThemePreference::System,
            ignored_path: Vec::new(),
            ignore_cloud_mounts: true,
            big_file_threshold: BIG_FILE_THRESHOLD,
        }
    }
}

} // verus!
