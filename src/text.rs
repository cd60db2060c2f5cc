//! Texts that the interface shows: window titles, menu and tool labels.
use vstd::prelude::*;

use crate::action::{spec_action_name, Action};
use crate::documents;
use crate::file_tree;
use crate::keymap::{chord_text, format_key, KeyChord};
use crate::menu_bar::MenuId;
use crate::tool_bar::ToolId;
use crate::window::WindowId;

verus! {

/// The `Debug` text of a string: quoted, with escapes.
pub uninterp spec fn debug_quoted(s: Seq<char>) -> Seq<char>;

/// Relies on the `Debug` format of `str`: the text between double quotes,
/// special characters escaped.
#[verifier::external_body]
fn quoted(s: &str) -> (r: String)
    ensures
        r@ == debug_quoted(s@),
{
    format!("{:?}", s)
}

pub open spec fn spec_window_title(id: WindowId) -> Seq<char> {
    match id {
        WindowId::Exit => "\u{ea6c} Exit"@,
        WindowId::About => "\u{ea74} About"@,
        WindowId::Setting => "\u{eb51} Setting"@,
        WindowId::Debug => "\u{eb68} Debug"@,
    }
}

/// A window's title: its icon and its name.
pub fn window_title(id: &WindowId) -> (r: String)
    ensures
        r@ == spec_window_title(*id),
{
    match id {
        WindowId::Exit => String::from_str("\u{ea6c} Exit"),
        WindowId::About => String::from_str("\u{ea74} About"),
        WindowId::Setting => String::from_str("\u{eb51} Setting"),
        WindowId::Debug => String::from_str("\u{eb68} Debug"),
    }
}

pub open spec fn spec_menu_text(id: MenuId) -> Seq<char> {
    match id {
        MenuId::File => "File"@,
        MenuId::Edit => "Edit"@,
        MenuId::View => "View"@,
        MenuId::Appearance => "Appearance"@,
        MenuId::About => "About"@,
    }
}

/// A sub-menu's label: its name.
pub fn menu_text(id: &MenuId) -> (r: String)
    ensures
        r@ == spec_menu_text(*id),
{
    match id {
        MenuId::File => String::from_str("File"),
        MenuId::Edit => String::from_str("Edit"),
        MenuId::View => String::from_str("View"),
        MenuId::Appearance => String::from_str("Appearance"),
        MenuId::About => String::from_str("About"),
    }
}

pub open spec fn spec_tool_hover_text(id: ToolId) -> Seq<char> {
    match id {
        ToolId::Explorer => "Explorer"@,
        ToolId::Search => "Search"@,
        ToolId::Extension => "Extension"@,
        ToolId::Setting => "Setting"@,
        ToolId::Custom(s) => "Custom("@ + debug_quoted(s@) + ")"@,
    }
}

/// The text shown over a tool: its name, a custom tool's quoted.
pub fn tool_hover_text(id: &ToolId) -> (r: String)
    ensures
        r@ == spec_tool_hover_text(*id),
{
    match id {
        ToolId::Explorer => String::from_str("Explorer"),
        ToolId::Search => String::from_str("Search"),
        ToolId::Extension => String::from_str("Extension"),
        ToolId::Setting => String::from_str("Setting"),
        ToolId::Custom(s) => {
            let mut r = String::from_str("Custom(");
            let q = quoted(s.as_str());
            r.append(q.as_str());
            r.append(")");
            r
        },
    }
}

pub open spec fn spec_open_files_context_menu_text(action: documents::ContextMenuAction) -> Seq<char> {
    match action {
        documents::ContextMenuAction::Close => "Close"@,
        documents::ContextMenuAction::CloseAll => "CloseAll"@,
        documents::ContextMenuAction::CloseOthers => "CloseOthers"@,
        documents::ContextMenuAction::CloseToRight => "CloseToRight"@,
        documents::ContextMenuAction::CloseSaved => "CloseSaved"@,
        documents::ContextMenuAction::CopyFullPath => "CopyFullPath"@,
        documents::ContextMenuAction::CopyRelativePath => "CopyRelativePath"@,
        documents::ContextMenuAction::OpenInNative => "OpenInNative"@,
    }
}

/// The label of an entry of a tab's context menu.
pub fn open_files_context_menu_text(action: &documents::ContextMenuAction) -> (r: String)
    ensures
        r@ == spec_open_files_context_menu_text(*action),
{
    match action {
        documents::ContextMenuAction::Close => String::from_str("Close"),
        documents::ContextMenuAction::CloseAll => String::from_str("CloseAll"),
        documents::ContextMenuAction::CloseOthers => String::from_str("CloseOthers"),
        documents::ContextMenuAction::CloseToRight => String::from_str("CloseToRight"),
        documents::ContextMenuAction::CloseSaved => String::from_str("CloseSaved"),
        documents::ContextMenuAction::CopyFullPath => String::from_str("CopyFullPath"),
        documents::ContextMenuAction::CopyRelativePath => String::from_str("CopyRelativePath"),
        documents::ContextMenuAction::OpenInNative => String::from_str("OpenInNative"),
    }
}

pub open spec fn spec_file_tree_context_menu_text(action: file_tree::ContextMenuAction) -> Seq<char> {
    match action {
        file_tree::ContextMenuAction::CopyFullPath => "CopyFullPath"@,
        file_tree::ContextMenuAction::CopyRelativePath => "CopyRelativePath"@,
        file_tree::ContextMenuAction::OpenInNative => "OpenInNative"@,
    }
}

/// The label of an entry of a tree node's context menu.
pub fn file_tree_context_menu_text(action: &file_tree::ContextMenuAction) -> (r: String)
    ensures
        r@ == spec_file_tree_context_menu_text(*action),
{
    match action {
        file_tree::ContextMenuAction::CopyFullPath => String::from_str("CopyFullPath"),
        file_tree::ContextMenuAction::CopyRelativePath => String::from_str("CopyRelativePath"),
        file_tree::ContextMenuAction::OpenInNative => String::from_str("OpenInNative"),
    }
}

/// The width of each column of a menu item.
pub const MENU_COLUMN: usize = 15;

pub open spec fn spaces(n: int) -> Seq<char> {
    Seq::new(if n < 0 { 0 } else { n as nat }, |i: int| ' ')
}

fn space_run(n: usize) -> (r: String)
    ensures
        r@ == spaces(n as int),
{
    proof {
        reveal_strlit(" ");
        assert(" "@ =~= seq![' ']);
    }
    let mut r = String::new();
    let mut i: usize = 0;
    while i < n
        invariant
            i <= n,
            r@ == spaces(i as int),
            " "@ == seq![' '],
        decreases n - i,
    {
        r.append(" ");
        i = i + 1;
        assert(r@ =~= spaces(i as int));
    }
    r
}

/// A menu item's text: the command's name, and when a chord is bound to it
/// the name padded to `MENU_COLUMN` characters followed by the first chord
/// right-aligned in `MENU_COLUMN` characters.
pub open spec fn spec_menu_item_text(name: Seq<char>, key: Option<Seq<char>>) -> Seq<char> {
    match key {
        None => name,
        Some(k) => name + spaces(MENU_COLUMN - name.len()) + spaces(MENU_COLUMN - k.len()) + k,
    }
}

pub fn menu_item_text(act: &Action, keys: &Vec<KeyChord>, is_mac: bool) -> (r: String)
    ensures
        r@ == spec_menu_item_text(
            spec_action_name(*act),
            if keys@.len() == 0 {
                None
            } else {
                Some(chord_text(keys@[0]@, is_mac))
            },
        ),
{
    let name = act.name();
    if keys.len() == 0 {
        return String::from_str(name);
    }
    let key = format_key(&keys[0], is_mac);
    let name_len = name.unicode_len();
    let key_len = key.as_str().unicode_len();
    let mut r = String::from_str(name);
    let pad = space_run(if name_len < MENU_COLUMN { MENU_COLUMN - name_len } else { 0 });
    r.append(pad.as_str());
    let lead = space_run(if key_len < MENU_COLUMN { MENU_COLUMN - key_len } else { 0 });
    r.append(lead.as_str());
    r.append(key.as_str());
    proof {
        assert(spaces(MENU_COLUMN - name@.len()) =~= spaces(if name_len < MENU_COLUMN { MENU_COLUMN - name_len } else { 0 }));
        assert(spaces(MENU_COLUMN - key@.len()) =~= spaces(if key_len < MENU_COLUMN { MENU_COLUMN - key_len } else { 0 }));
    }
    r
}

} // verus!
