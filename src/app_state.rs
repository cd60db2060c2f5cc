//! The application state as a whole, and the dispatcher that drains the
//! bus once per cycle and hands each command to every component.
use vstd::prelude::*;

use crate::action::Action;
use crate::bus::{ActionBus, BUS_CAPACITY};
use crate::documents::OpenFiles;
use crate::file_tree::{spec_children, spec_expand, spec_path, tree_wf, FileTree};
use crate::keymap::{with_defaults, KeyActions, KeyError, DEFAULT_COUNT};
use crate::menu_bar::MenuBar;
use crate::status_bar::StatusBar;
use crate::tool_bar::{first_with_id, same_tool, Item, ToolBar, ToolId};
use crate::ui::{zoom_clamp, ZOOM_MAX, ZOOM_MIN};
use crate::window::{ExitWindow, SettingWindow};

verus! {

/// Outside work that a command asks for and the caller performs: picking a
/// folder in a native dialog (its result comes back as `SetOpenDir`), or
/// starting the profiler viewer.
#[derive(Debug, Clone, Copy, PartialEq, Eq, Structural)]
pub enum Effect {
    PickFolder,
    OpenProfiler,
}

/// The switches of the window chrome, and the zoom in tenths.
#[derive(Debug, Clone, Copy, PartialEq, Eq, Structural)]
pub struct Flags {
    pub exit_app: bool,
    pub fullscreen: bool,
    pub decorations: bool,
    pub zoom_default: u32,
    pub zoom: u32,
    pub vertical_tab_bar: bool,
    pub show_tool_bar: bool,
    pub show_status_bar: bool,
    pub show_terminal: bool,
    pub show_debug_window: bool,
    pub show_about_window: bool,
    pub show_setting_window: bool,
}

/// A zoom in tenths held in `ZOOM_MIN..=ZOOM_MAX`.
pub open spec fn clamp_zoom(z: int) -> u32 {
    if z < ZOOM_MIN {
        ZOOM_MIN
    } else if z > ZOOM_MAX {
        ZOOM_MAX
    } else {
        z as u32
    }
}

/// What a command does to the switches.
pub open spec fn flags_after(f: Flags, a: Action) -> Flags {
    match a {
        Action::ExitApp => Flags { exit_app: true, ..f },
        Action::ToggleFullScreen => Flags { fullscreen: !f.fullscreen, ..f },
        Action::ToggleDecorations => Flags { decorations: !f.decorations, ..f },
        Action::ToggleStatusBar => Flags { show_status_bar: !f.show_status_bar, ..f },
        Action::ToggleToolBar => Flags { show_tool_bar: !f.show_tool_bar, ..f },
        Action::ToggleTerminal => Flags { show_terminal: !f.show_terminal, ..f },
        Action::ToggleVerticalTabBar => Flags { vertical_tab_bar: !f.vertical_tab_bar, ..f },
        Action::ZoomIn => Flags { zoom: clamp_zoom(f.zoom + 1), ..f },
        Action::ZoomOut => Flags { zoom: clamp_zoom(f.zoom - 1), ..f },
        Action::ZoomReset => Flags { zoom: f.zoom_default, ..f },
        Action::ZoomSet(v) => Flags { zoom: clamp_zoom(v as int), ..f },
        Action::OpenDebugWindow => Flags { show_debug_window: true, ..f },
        Action::OpenAboutWindow => Flags { show_about_window: true, ..f },
        Action::OpenSettingWindow => Flags { show_setting_window: true, ..f },
        _ => f,
    }
}

/// The outside work a command asks for.
pub open spec fn effect_of(a: Action) -> Option<Effect> {
    match a {
        Action::OpenFolder => Some(Effect::PickFolder),
        Action::OpenPuffinViewer => Some(Effect::OpenProfiler),
        _ => None,
    }
}

fn effect(a: &Action) -> (r: Option<Effect>)
    ensures
        r == effect_of(*a),
{
    match a {
        Action::OpenFolder => Some(Effect::PickFolder),
        Action::OpenPuffinViewer => Some(Effect::OpenProfiler),
        _ => None,
    }
}

/// The outside work that a run of commands asks for, in order.
pub open spec fn effects_of(s: Seq<Action>) -> Seq<Effect>
    decreases s.len(),
{
    if s.len() == 0 {
        Seq::empty()
    } else {
        match effect_of(s.last()) {
            Some(e) => effects_of(s.drop_last()).push(e),
            None => effects_of(s.drop_last()),
        }
    }
}

/// What a run of commands does to the switches.
pub open spec fn flags_after_all(f: Flags, s: Seq<Action>) -> Flags
    decreases s.len(),
{
    if s.len() == 0 {
        f
    } else {
        flags_after(flags_after_all(f, s.drop_last()), s.last())
    }
}

/// The directory that the last `SetOpenDir` of a run of commands opens.
pub open spec fn last_open_dir(s: Seq<Action>) -> Option<Seq<char>>
    decreases s.len(),
{
    if s.len() == 0 {
        None
    } else {
        match s.last() {
            Action::SetOpenDir(p) => Some(p@),
            _ => last_open_dir(s.drop_last()),
        }
    }
}

/// Whether `t` is the fresh tree of the directory at `path`.
pub open spec fn fresh_tree(t: FileTree, path: Seq<char>) -> bool {
    t@.len() == 1 && spec_path(t@[0]) == path && spec_expand(t@[0]) && spec_children(t@[0]).len() == 0
}

/// Whether the top tool at `cur` is the explorer.
pub open spec fn shown_at(top: Seq<Item>, cur: usize) -> bool {
    cur < top.len() && same_tool(top[cur as int].id, ToolId::Explorer)
}

/// The tool rail's selection after it handles `a`: `ToggleExplorer` toggles
/// the explorer tool.
pub open spec fn rail_after(top: Seq<Item>, cur: usize, a: Action) -> usize {
    if a is ToggleExplorer {
        match first_with_id(top, ToolId::Explorer) {
            Some(i) => if cur as int == i {
                usize::MAX
            } else {
                i as usize
            },
            None => cur,
        }
    } else {
        cur
    }
}

/// The tool rail's selection after a run of commands.
pub open spec fn rail_after_all(top: Seq<Item>, cur: usize, s: Seq<Action>) -> usize
    decreases s.len(),
{
    if s.len() == 0 {
        cur
    } else {
        rail_after(top, rail_after_all(top, cur, s.drop_last()), s.last())
    }
}

/// How many commands of a run open a directory while the explorer is
/// hidden, each of which asks for `ToggleExplorer` in the next cycle.
pub open spec fn hidden_opens(top: Seq<Item>, cur: usize, s: Seq<Action>) -> nat
    decreases s.len(),
{
    if s.len() == 0 {
        0
    } else {
        hidden_opens(top, cur, s.drop_last()) + (if s.last() is SetOpenDir && !shown_at(
            top,
            rail_after_all(top, cur, s.drop_last()),
        ) {
            1nat
        } else {
            0nat
        })
    }
}

/// Whether the tool rail shows the explorer.
pub open spec fn explorer_shown(t: ToolBar) -> bool {
    t.current_index < t.top@.len() && same_tool(t.top@[t.current_index as int].id, ToolId::Explorer)
}

pub struct MyApp {
    pub flags: Flags,
    pub exit_window: ExitWindow,
    pub setting_window: SettingWindow,
    pub menu_bar: MenuBar,
    pub tool_bar: ToolBar,
    pub status_bar: StatusBar,
    /// The tree of the opened directory, if one is open.
    pub open_dir: Option<FileTree>,
    pub open_files: OpenFiles,
    pub key_actions: KeyActions,
    pub bus: ActionBus,
}

impl MyApp {
    pub open spec fn wf(&self) -> bool {
        &&& self.open_files@.wf()
        &&& self.key_actions.wf()
        &&& self.bus.wf()
        &&& (self.open_dir matches Some(t) ==> tree_wf(t@))
    }

    /// The state at start: decorations, tool rail and status bar shown, zoom
    /// at `zoom_default` tenths, the default key bindings loaded, nothing
    /// open. Fails when the default bindings conflict.
    pub fn new(zoom_default: u32, is_mac: bool) -> (r: Result<MyApp, KeyError>)
        ensures
            r is Ok <==> with_defaults(Seq::empty(), DEFAULT_COUNT as int, is_mac) is Some,
            r matches Ok(app) ==> {
                &&& app.wf()
                &&& app.flags == (Flags {
                    exit_app: false,
                    fullscreen: false,
                    decorations: true,
                    zoom_default,
                    zoom: zoom_default,
                    vertical_tab_bar: false,
                    show_tool_bar: true,
                    show_status_bar: true,
                    show_terminal: false,
                    show_debug_window: false,
                    show_about_window: false,
                    show_setting_window: false,
                })
                &&& app.open_dir is None
                &&& app.open_files@.files.len() == 0
                &&& app.bus@.queue.len() == 0
                &&& app.bus@.capacity == BUS_CAPACITY
                &&& with_defaults(Seq::empty(), DEFAULT_COUNT as int, is_mac) == Some(app.key_actions@.entries)
            },
    {
        let mut key_actions = KeyActions::new(is_mac);
        assert(key_actions@.entries =~= Seq::empty());
        match key_actions.init() {
            Ok(()) => {},
            Err(e) => {
                return Err(e);
            },
        }
        Ok(MyApp {
            flags: Flags {
                exit_app: false,
                fullscreen: false,
                decorations: true,
                zoom_default,
                zoom: zoom_default,
                vertical_tab_bar: false,
                show_tool_bar: true,
                show_status_bar: true,
                show_terminal: false,
                show_debug_window: false,
                show_about_window: false,
                show_setting_window: false,
            },
            exit_window: ExitWindow::new(),
            setting_window: SettingWindow::new(),
            menu_bar: MenuBar::new(),
            tool_bar: ToolBar::new(),
            status_bar: StatusBar::new(),
            open_dir: None,
            open_files: OpenFiles::new(),
            key_actions,
            bus: ActionBus::new(BUS_CAPACITY),
        })
    }

    pub fn exit_app(&mut self)
        ensures
            final(self).flags == (Flags { exit_app: true, ..old(self).flags }),
    {
        self.flags.exit_app = true;
    }

    pub fn toggle_fullscreen(&mut self)
        ensures
            final(self).flags == (Flags { fullscreen: !old(self).flags.fullscreen, ..old(self).flags }),
    {
        self.flags.fullscreen = !self.flags.fullscreen;
    }

    pub fn toggle_decorations(&mut self)
        ensures
            final(self).flags == (Flags { decorations: !old(self).flags.decorations, ..old(self).flags }),
    {
        self.flags.decorations = !self.flags.decorations;
    }

    pub fn zoom_in(&mut self)
        ensures
            final(self).flags == (Flags { zoom: clamp_zoom(old(self).flags.zoom + 1), ..old(self).flags }),
    {
        self.flags.zoom = if self.flags.zoom >= ZOOM_MAX {
            ZOOM_MAX
        } else {
            zoom_clamp(self.flags.zoom + 1)
        };
    }

    pub fn zoom_out(&mut self)
        ensures
            final(self).flags == (Flags { zoom: clamp_zoom(old(self).flags.zoom - 1), ..old(self).flags }),
    {
        self.flags.zoom = if self.flags.zoom == 0 {
            ZOOM_MIN
        } else {
            zoom_clamp(self.flags.zoom - 1)
        };
    }

    pub fn zoom_reset(&mut self)
        ensures
            final(self).flags == (Flags { zoom: old(self).flags.zoom_default, ..old(self).flags }),
    {
        self.flags.zoom = self.flags.zoom_default;
    }

    pub fn zoom_set(&mut self, new_zoom: u32)
        ensures
            final(self).flags == (Flags { zoom: clamp_zoom(new_zoom as int), ..old(self).flags }),
    {
        self.flags.zoom = zoom_clamp(new_zoom);
    }

    pub fn toggle_tool_bar(&mut self)
        ensures
            final(self).flags == (Flags { show_tool_bar: !old(self).flags.show_tool_bar, ..old(self).flags }),
    {
        self.flags.show_tool_bar = !self.flags.show_tool_bar;
    }

    pub fn toggle_status_bar(&mut self)
        ensures
            final(self).flags == (Flags { show_status_bar: !old(self).flags.show_status_bar, ..old(self).flags }),
    {
        self.flags.show_status_bar = !self.flags.show_status_bar;
    }

    pub fn toggle_vertical_tab_bar(&mut self)
        ensures
            final(self).flags == (Flags { vertical_tab_bar: !old(self).flags.vertical_tab_bar, ..old(self).flags }),
    {
        self.flags.vertical_tab_bar = !self.flags.vertical_tab_bar;
    }

    pub fn toggle_terminal(&mut self)
        ensures
            final(self).flags == (Flags { show_terminal: !old(self).flags.show_terminal, ..old(self).flags }),
    {
        self.flags.show_terminal = !self.flags.show_terminal;
    }

    pub fn open_about_window(&mut self)
        ensures
            final(self).flags == (Flags { show_about_window: true, ..old(self).flags }),
    {
        self.flags.show_about_window = true;
    }

    pub fn open_setting_window(&mut self)
        ensures
            final(self).flags == (Flags { show_setting_window: true, ..old(self).flags }),
    {
        self.flags.show_setting_window = true;
    }

    pub fn open_debug_window(&mut self)
        ensures
            final(self).flags == (Flags { show_debug_window: true, ..old(self).flags }),
    {
        self.flags.show_debug_window = true;
    }

    /// Whether the explorer panel shows: the tool rail has the explorer
    /// selected.
    pub fn show_explorer(&self) -> (r: bool)
        ensures
            r == explorer_shown(self.tool_bar),
    {
        match self.tool_bar.current_item() {
            Some(item) => item.id.same(&ToolId::Explorer),
            None => false,
        }
    }

    /// Opens the directory at `dir_path` as the tree's root, expanded.
    pub fn set_open_dir(&mut self, dir_path: String)
        requires
            old(self).wf(),
        ensures
            final(self).wf(),
            final(self).open_dir matches Some(t) && t@.len() == 1 && spec_path(t@[0]) == dir_path@ && spec_expand(t@[0])
                && spec_children(t@[0]).len() == 0,
            final(self).flags == old(self).flags,
            final(self).bus == old(self).bus,
            final(self).tool_bar == old(self).tool_bar,
            final(self).open_files == old(self).open_files,
            final(self).key_actions@ == old(self).key_actions@,
    {
        self.open_dir = Some(FileTree::new(dir_path));
    }

    /// The state's own reaction to a command: switches and zoom change as
    /// `flags_after` says; `SetOpenDir` opens the directory and, when the
    /// explorer is hidden, sends `ToggleExplorer` for the next cycle;
    /// `OpenFolder` and `OpenPuffinViewer` ask the caller for outside work.
    pub fn handle(&mut self, action: &Action) -> (r: Option<Effect>)
        requires
            old(self).wf(),
        ensures
            final(self).wf(),
            final(self).flags == flags_after(old(self).flags, *action),
            r == effect_of(*action),
            final(self).tool_bar == old(self).tool_bar,
            final(self).open_files == old(self).open_files,
            final(self).key_actions@ == old(self).key_actions@,
            final(self).bus@.capacity == old(self).bus@.capacity,
            match *action {
                Action::SetOpenDir(p) => {
                    &&& final(self).open_dir matches Some(t) && t@.len() == 1 && spec_path(t@[0]) == p@
                        && spec_expand(t@[0]) && spec_children(t@[0]).len() == 0
                    &&& if explorer_shown(old(self).tool_bar) || old(self).bus@.queue.len() >= old(self).bus@.capacity {
                        final(self).bus@.queue == old(self).bus@.queue
                    } else {
                        final(self).bus@.queue == old(self).bus@.queue.push(Action::ToggleExplorer)
                    }
                },
                _ => final(self).open_dir == old(self).open_dir && final(self).bus == old(self).bus,
            },
    {
        self.apply_flags(action);
        match action {
            Action::SetOpenDir(dir_path) => {
                self.set_open_dir(dir_path.clone());
                if !self.show_explorer() {
                    let _ = self.bus.send(Action::ToggleExplorer);
                }
            },
            _ => {},
        }
        effect(action)
    }

    /// Changes the switches and the zoom as `flags_after` says.
    fn apply_flags(&mut self, action: &Action)
        ensures
            final(self).flags == flags_after(old(self).flags, *action),
            final(self).tool_bar == old(self).tool_bar,
            final(self).open_files == old(self).open_files,
            final(self).key_actions@ == old(self).key_actions@,
            final(self).open_dir == old(self).open_dir,
            final(self).bus == old(self).bus,
    {
        let f = self.flags;
        let mut g = f;
        match action {
            Action::ExitApp => g.exit_app = true,
            Action::ToggleFullScreen => g.fullscreen = !f.fullscreen,
            Action::ToggleDecorations => g.decorations = !f.decorations,
            Action::ToggleStatusBar => g.show_status_bar = !f.show_status_bar,
            Action::ToggleToolBar => g.show_tool_bar = !f.show_tool_bar,
            Action::ToggleTerminal => g.show_terminal = !f.show_terminal,
            Action::ToggleVerticalTabBar => g.vertical_tab_bar = !f.vertical_tab_bar,
            Action::ZoomIn => g.zoom = if f.zoom >= ZOOM_MAX {
                ZOOM_MAX
            } else {
                zoom_clamp(f.zoom + 1)
            },
            Action::ZoomOut => g.zoom = if f.zoom == 0 {
                ZOOM_MIN
            } else {
                zoom_clamp(f.zoom - 1)
            },
            Action::ZoomReset => g.zoom = f.zoom_default,
            Action::ZoomSet(v) => g.zoom = zoom_clamp(*v),
            Action::OpenDebugWindow => g.show_debug_window = true,
            Action::OpenAboutWindow => g.show_about_window = true,
            Action::OpenSettingWindow => g.show_setting_window = true,
            _ => {},
        }
        self.flags = g;
    }

    /// One cycle of the dispatcher: drains the bus and hands each command,
    /// oldest first, to the state, the documents, the menu bar, the tool
    /// rail and the status bar, in that order. Commands sent meanwhile wait
    /// for the next cycle. Returns the outside work asked for, in order.
    pub fn dispatch(&mut self) -> (r: Vec<Effect>)
        requires
            old(self).wf(),
        ensures
            final(self).wf(),
            r@ == effects_of(old(self).bus@.queue),
            final(self).flags == flags_after_all(old(self).flags, old(self).bus@.queue),
            final(self).bus@.capacity == old(self).bus@.capacity,
            final(self).open_files@ == old(self).open_files@,
            final(self).key_actions@ == old(self).key_actions@,
            final(self).tool_bar.top == old(self).tool_bar.top,
            final(self).tool_bar.bottom == old(self).tool_bar.bottom,
            final(self).tool_bar.current_index == rail_after_all(
                old(self).tool_bar.top@,
                old(self).tool_bar.current_index,
                old(self).bus@.queue,
            ),
            forall|k: int| 0 <= k < final(self).bus@.queue.len() ==> final(self).bus@.queue[k] == Action::ToggleExplorer,
            final(self).bus@.queue.len() == ({
                let h = hidden_opens(old(self).tool_bar.top@, old(self).tool_bar.current_index, old(self).bus@.queue);
                if h < old(self).bus@.capacity {
                    h
                } else {
                    old(self).bus@.capacity as nat
                }
            }),
            match last_open_dir(old(self).bus@.queue) {
                Some(p) => final(self).open_dir matches Some(t) && fresh_tree(t, p),
                None => final(self).open_dir == old(self).open_dir,
            },
    {
        let actions = self.bus.drain_all();
        let ghost drained = actions@;
        let ghost start = self.flags;
        let mut effects: Vec<Effect> = Vec::new();
        let n = actions.len();
        let mut i: usize = 0;
        while i < n
            invariant
                n == actions@.len(),
                actions@ == drained,
                drained == old(self).bus@.queue,
                start == old(self).flags,
                i <= n,
                self.wf(),
                self.bus@.capacity == old(self).bus@.capacity,
                self.open_files@ == old(self).open_files@,
                self.key_actions@ == old(self).key_actions@,
                effects@ == effects_of(drained.subrange(0, i as int)),
                self.flags == flags_after_all(start, drained.subrange(0, i as int)),
                self.tool_bar.top == old(self).tool_bar.top,
                self.tool_bar.bottom == old(self).tool_bar.bottom,
                self.tool_bar.current_index == rail_after_all(
                    old(self).tool_bar.top@,
                    old(self).tool_bar.current_index,
                    drained.subrange(0, i as int),
                ),
                forall|k: int| 0 <= k < self.bus@.queue.len() ==> self.bus@.queue[k] == Action::ToggleExplorer,
                self.bus@.queue.len() == ({
                    let h = hidden_opens(old(self).tool_bar.top@, old(self).tool_bar.current_index, drained.subrange(0, i as int));
                    if h < old(self).bus@.capacity {
                        h
                    } else {
                        old(self).bus@.capacity as nat
                    }
                }),
                match last_open_dir(drained.subrange(0, i as int)) {
                    Some(p) => self.open_dir matches Some(t) && fresh_tree(t, p),
                    None => self.open_dir == old(self).open_dir,
                },
            decreases n - i,
        {
            let action = &actions[i];
            proof {
                let s = drained.subrange(0, i + 1);
                assert(s.drop_last() =~= drained.subrange(0, i as int));
                assert(s.last() == actions@[i as int]);
            }
            match self.handle(action) {
                Some(e) => effects.push(e),
                None => {},
            }
            self.open_files.handle(action);
            self.menu_bar.handle(action);
            self.tool_bar.handle(action);
            self.status_bar.handle(action);
            i = i + 1;
        }
        assert(drained.subrange(0, n as int) =~= drained);
        effects
    }
}

} // verus!
