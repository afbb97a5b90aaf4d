//! The tray icon's menu and tool tip, the program's control center.
//!
//! Menu actions send [`Cmd`]s to the main loop. The entries depend only on
//! whether a recording runs, how many steps it has, and the active string
//! table; drawing the icon and talking to the panel are the caller's part.

use vstd::prelude::*;
use vstd::string::StringExecFns;
use crate::i18n::Strings;
use crate::text::{decimal, replace, replace_str, usize_to_string};

verus! {

/// Control commands from the tray to the main loop.
#[derive(Debug, Clone, Copy, PartialEq, Eq, Structural)]
pub enum Cmd {
    Start,
    Stop,
    OpenFolder,
    Quit,
}

/// One entry of the tray menu.
#[derive(Debug)]
pub enum MenuEntry {
    Separator,
    Item {
        label: String,
        /// Freedesktop icon name, empty for none.
        icon_name: &'static str,
        enabled: bool,
        /// The command the entry sends when activated, if any.
        command: Option<Cmd>,
    },
}

/// The menu's first line: the step count while recording.
pub open spec fn header_label(t: Strings, recording: bool, steps: nat) -> Seq<char> {
    if recording {
        replace(t.tray_recording@, "{n}"@, decimal(steps))
    } else {
        t.tray_ready@
    }
}

/// The tool tip's description: the step count while recording.
pub open spec fn tool_tip_text(t: Strings, recording: bool, steps: nat) -> Seq<char> {
    if recording {
        replace(t.tt_recording@, "{n}"@, decimal(steps))
    } else {
        t.tt_ready@
    }
}

/// Whether a menu entry is an item with exactly these contents.
pub open spec fn is_item(
    e: MenuEntry,
    label: Seq<char>,
    icon_name: &'static str,
    enabled: bool,
    command: Option<Cmd>,
) -> bool {
    match e {
        MenuEntry::Item { label: l, icon_name: i, enabled: en, command: c } => l@ == label && i
            == icon_name && en == enabled && c == command,
        MenuEntry::Separator => false,
    }
}

/// The tool tip's description.
pub fn tool_tip_description(t: &Strings, recording: bool, steps: usize) -> (res: String)
    ensures
        res@ == tool_tip_text(*t, recording, steps as nat),
{
    if recording {
        let n = usize_to_string(steps);
        replace_str(t.tt_recording, "{n}", n.as_str())
    } else {
        String::from_str(t.tt_ready)
    }
}

/// The menu: a disabled header with the state, a separator, the
/// start/stop toggle, "open last report folder", a separator and "quit".
pub fn menu_entries(t: &Strings, recording: bool, steps: usize) -> (res: Vec<MenuEntry>)
    ensures
        res@.len() == 6,
        is_item(res@[0], header_label(*t, recording, steps as nat), "", false, None),
        res@[1] is Separator,
        recording ==> is_item(
            res@[2],
            t.menu_stop@,
            "media-playback-stop",
            true,
            Some(Cmd::Stop),
        ),
        !recording ==> is_item(res@[2], t.menu_start@, "media-record", true, Some(Cmd::Start)),
        is_item(res@[3], t.menu_open_folder@, "folder-open", true, Some(Cmd::OpenFolder)),
        res@[4] is Separator,
        is_item(res@[5], t.menu_quit@, "application-exit", true, Some(Cmd::Quit)),
{
    let header: String = if recording {
        let n = usize_to_string(steps);
        replace_str(t.tray_recording, "{n}", n.as_str())
    } else {
        String::from_str(t.tray_ready)
    };
    let toggle: MenuEntry = if recording {
        MenuEntry::Item {
            label: String::from_str(t.menu_stop),
            icon_name: "media-playback-stop",
            enabled: true,
            command: Some(Cmd::Stop),
        }
    } else {
        MenuEntry::Item {
            label: String::from_str(t.menu_start),
            icon_name: "media-record",
            enabled: true,
            command: Some(Cmd::Start),
        }
    };
    let mut v: Vec<MenuEntry> = Vec::new();
    v.push(MenuEntry::Item { label: header, icon_name: "", enabled: false, command: None });
    v.push(MenuEntry::Separator);
    v.push(toggle);
    v.push(
        MenuEntry::Item {
            label: String::from_str(t.menu_open_folder),
            icon_name: "folder-open",
            enabled: true,
            command: Some(Cmd::OpenFolder),
        },
    );
    v.push(MenuEntry::Separator);
    v.push(
        MenuEntry::Item {
            label: String::from_str(t.menu_quit),
            icon_name: "application-exit",
            enabled: true,
            command: Some(Cmd::Quit),
        },
    );
    v
}

} // verus!
