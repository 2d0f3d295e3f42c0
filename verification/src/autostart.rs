//! The desktop entry that starts the application with the session.
use vstd::prelude::*;

use crate::appdata::{join_path, path_join};
use crate::text::string_of;

verus! {

/// The autostart directory under a home directory: `~/.config/autostart`.
pub open spec fn autostart_dir_of(home: Seq<char>) -> Seq<char> {
    path_join(path_join(home, ".config"@), "autostart"@)
}

/// The directory of autostart entries under a home directory.
pub fn autostart_dir(home: &str) -> (r: String)
    ensures
        r@ == autostart_dir_of(home@),
{
    let c = join_path(home, ".config");
    join_path(c.as_str(), "autostart")
}

/// The desktop entry file in an autostart directory.
pub fn desktop_file(dir: &str) -> (r: String)
    ensures
        r@ == path_join(dir@, "general-sys-tray-app.desktop"@),
{
    join_path(dir, "general-sys-tray-app.desktop")
}

/// The program that the entry starts: the running executable when its
/// path is known, else `/usr/local/bin/general-sys-tray-app`.
pub fn autostart_exec(current_exe: Option<String>) -> (r: String)
    ensures
        r@ == (match current_exe {
            Some(p) => p@,
            None => "/usr/local/bin/general-sys-tray-app"@,
        }),
{
    match current_exe {
        Some(p) => p,
        None => string_of("/usr/local/bin/general-sys-tray-app"),
    }
}

/// The text of the desktop entry that starts `exe`, hidden from menus and
/// enabled for the GNOME session.
pub open spec fn desktop_entry_text(exe: Seq<char>) -> Seq<char> {
    "[Desktop Entry]\nType=Application\nExec="@ + exe
        + "\nHidden=false\nNoDisplay=true\nX-GNOME-Autostart-enabled=true\n"@
}

/// The text of the desktop entry that starts `exe`.
pub fn desktop_entry(exe: &str) -> (r: String)
    ensures
        r@ == desktop_entry_text(exe@),
{
    let mut r = string_of("[Desktop Entry]\nType=Application\nExec=");
    r.append(exe);
    r.append("\nHidden=false\nNoDisplay=true\nX-GNOME-Autostart-enabled=true\n");
    r
}

} // verus!
