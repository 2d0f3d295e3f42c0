//! Where the application keeps its files.
use vstd::prelude::*;

use crate::text::{opt_view, string_of};

verus! {

/// The application's directories and files, as paths.
#[derive(Debug, Clone)]
pub struct AppData {
    pub config_dir: String,
    pub icons_dir: String,
    pub state_dir: String,
    pub lock_file: String,
    pub socket_file: String,
}

/// A path is absolute when it starts at the root.
pub open spec fn is_absolute_path(p: Seq<char>) -> bool {
    p.len() > 0 && p[0] == '/'
}

/// `base` joined with `p` as `Path::join` does on Unix: an absolute `p`
/// replaces `base`; otherwise `p` is appended, with one `/` between them
/// unless `base` is empty or already ends with one.
pub open spec fn path_join(base: Seq<char>, p: Seq<char>) -> Seq<char> {
    if is_absolute_path(p) {
        p
    } else if base.len() > 0 && base.last() != '/' {
        base + seq!['/'] + p
    } else {
        base + p
    }
}

/// Joins two paths as `Path::join` does on Unix.
pub fn join_path(base: &str, p: &str) -> (r: String)
    ensures
        r@ == path_join(base@, p@),
{
    let pv = crate::text::chars_of(p);
    if pv.len() > 0 && pv[0] == '/' {
        return string_of(p);
    }
    let bv = crate::text::chars_of(base);
    let mut r = string_of(base);
    if bv.len() > 0 && bv[bv.len() - 1] != '/' {
        crate::text::push_char(&mut r, '/');
    }
    r.append(p);
    r
}

/// The directory for runtime files: `XDG_RUNTIME_DIR` when it is set and
/// not empty, else `TMPDIR` when it is set, else `/tmp`.
pub open spec fn runtime_dir_choice(xdg: Option<Seq<char>>, tmpdir: Option<Seq<char>>) -> Seq<char> {
    match xdg {
        Some(d) if d.len() > 0 => d,
        _ => match tmpdir {
            Some(d) => d,
            None => "/tmp"@,
        },
    }
}

/// Chooses the directory for runtime files from the values of
/// `XDG_RUNTIME_DIR` and `TMPDIR`.
pub fn choose_runtime_dir(xdg: Option<String>, tmpdir: Option<String>) -> (r: String)
    ensures
        r@ == runtime_dir_choice(opt_view(xdg), opt_view(tmpdir)),
{
    if let Some(d) = xdg {
        if !d.as_str().is_empty() {
            return d;
        }
    }
    match tmpdir {
        Some(d) => d,
        None => string_of("/tmp"),
    }
}

/// The application's configuration directory under a home directory.
pub open spec fn config_dir_of(home: Seq<char>) -> Seq<char> {
    path_join(path_join(home, ".config"@), "general-sys-tray-app"@)
}

impl AppData {
    /// The layout under a home directory and a runtime directory: the
    /// configuration directory `~/.config/general-sys-tray-app` with
    /// `icons` and `state` in it and the lock file `app.lock`; the socket
    /// `general-sys-tray-app.sock` in the runtime directory.
    pub fn layout(home: &str, runtime_dir: &str) -> (r: AppData)
        ensures
            r.config_dir@ == config_dir_of(home@),
            r.icons_dir@ == path_join(config_dir_of(home@), "icons"@),
            r.state_dir@ == path_join(config_dir_of(home@), "state"@),
            r.lock_file@ == path_join(config_dir_of(home@), "app.lock"@),
            r.socket_file@ == path_join(runtime_dir@, "general-sys-tray-app.sock"@),
    {
        let dot_config = join_path(home, ".config");
        let config_dir = join_path(dot_config.as_str(), "general-sys-tray-app");
        let icons_dir = join_path(config_dir.as_str(), "icons");
        let state_dir = join_path(config_dir.as_str(), "state");
        let lock_file = join_path(config_dir.as_str(), "app.lock");
        let socket_file = join_path(runtime_dir, "general-sys-tray-app.sock");
        AppData { config_dir, icons_dir, state_dir, lock_file, socket_file }
    }

    /// The configuration file: `config.yaml` in the configuration directory.
    pub fn config_path(&self) -> (r: String)
        ensures
            r@ == path_join(self.config_dir@, "config.yaml"@),
    {
        join_path(self.config_dir.as_str(), "config.yaml")
    }

    /// An icon file in the icons directory.
    pub fn icon_path(&self, name: &str) -> (r: String)
        ensures
            r@ == path_join(self.icons_dir@, name@),
    {
        join_path(self.icons_dir.as_str(), name)
    }

    /// The state file of a target: `<name>.json` in the state directory.
    pub fn target_state_path(&self, target_name: &str) -> (r: String)
        ensures
            r@ == path_join(self.state_dir@, target_name@ + ".json"@),
    {
        let mut file = string_of(target_name);
        file.append(".json");
        join_path(self.state_dir.as_str(), file.as_str())
    }
}

} // verus!
