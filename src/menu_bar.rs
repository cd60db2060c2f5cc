//! The menu bar: a tree of sub-menus whose items send commands.
use vstd::prelude::*;

use crate::action::Action;
use crate::tree::Tree;

verus! {

#[derive(Debug, Clone, Copy, PartialEq, Eq, Structural)]
pub enum MenuId {
    File,
    Edit,
    View,
    Appearance,
    About,
}

pub enum Menu {
    SubMenu(MenuId),
    Item(Action),
    Separator,
}

pub struct MenuBar {
    pub menus: Vec<Tree<Menu>>,
}

/// The values of a list of menu trees.
pub open spec fn values_of(ts: Seq<Tree<Menu>>) -> Seq<Menu> {
    ts.map_values(|t: Tree<Menu>| t.value)
}

impl MenuBar {
    /// File (open folder, exit), Edit (empty), View (Appearance: full
    /// screen, status bar, tool bar, terminal, zoom in, out and reset) and
    /// About (debug window, profiler, about window).
    pub fn new() -> (r: MenuBar)
        ensures
            values_of(r.menus@) == seq![
                Menu::SubMenu(MenuId::File),
                Menu::SubMenu(MenuId::Edit),
                Menu::SubMenu(MenuId::View),
                Menu::SubMenu(MenuId::About),
            ],
            values_of(r.menus@[0].kids@) == seq![Menu::Item(Action::OpenFolder), Menu::Separator, Menu::Item(Action::ExitApp)],
            r.menus@[1].kids@.len() == 0,
            values_of(r.menus@[2].kids@) == seq![Menu::SubMenu(MenuId::Appearance)],
            values_of(r.menus@[2].kids@[0].kids@) == seq![
                Menu::Item(Action::ToggleFullScreen),
                Menu::Item(Action::ToggleStatusBar),
                Menu::Item(Action::ToggleToolBar),
                Menu::Item(Action::ToggleTerminal),
                Menu::Separator,
                Menu::Item(Action::ZoomIn),
                Menu::Item(Action::ZoomOut),
                Menu::Item(Action::ZoomReset),
            ],
            values_of(r.menus@[3].kids@) == seq![
                Menu::Item(Action::OpenDebugWindow),
                Menu::Item(Action::OpenPuffinViewer),
                Menu::Separator,
                Menu::Item(Action::OpenAboutWindow),
            ],
    {
        let mut file_kids: Vec<Tree<Menu>> = Vec::new();
        file_kids.push(Tree::new_leaf(Menu::Item(Action::OpenFolder)));
        file_kids.push(Tree::new_leaf(Menu::Separator));
        file_kids.push(Tree::new_leaf(Menu::Item(Action::ExitApp)));
        let file = Tree::new_branch(Menu::SubMenu(MenuId::File), file_kids);
        let edit = Tree::new_branch(Menu::SubMenu(MenuId::Edit), Vec::new());
        let mut look: Vec<Tree<Menu>> = Vec::new();
        look.push(Tree::new_leaf(Menu::Item(Action::ToggleFullScreen)));
        look.push(Tree::new_leaf(Menu::Item(Action::ToggleStatusBar)));
        look.push(Tree::new_leaf(Menu::Item(Action::ToggleToolBar)));
        look.push(Tree::new_leaf(Menu::Item(Action::ToggleTerminal)));
        look.push(Tree::new_leaf(Menu::Separator));
        look.push(Tree::new_leaf(Menu::Item(Action::ZoomIn)));
        look.push(Tree::new_leaf(Menu::Item(Action::ZoomOut)));
        look.push(Tree::new_leaf(Menu::Item(Action::ZoomReset)));
        let mut view_kids: Vec<Tree<Menu>> = Vec::new();
        view_kids.push(Tree::new_branch(Menu::SubMenu(MenuId::Appearance), look));
        let view = Tree::new_branch(Menu::SubMenu(MenuId::View), view_kids);
        let mut about_kids: Vec<Tree<Menu>> = Vec::new();
        about_kids.push(Tree::new_leaf(Menu::Item(Action::OpenDebugWindow)));
        about_kids.push(Tree::new_leaf(Menu::Item(Action::OpenPuffinViewer)));
        about_kids.push(Tree::new_leaf(Menu::Separator));
        about_kids.push(Tree::new_leaf(Menu::Item(Action::OpenAboutWindow)));
        let about = Tree::new_branch(Menu::SubMenu(MenuId::About), about_kids);
        let mut menus: Vec<Tree<Menu>> = Vec::new();
        menus.push(file);
        menus.push(edit);
        menus.push(view);
        menus.push(about);
        let r = MenuBar { menus };
        proof {
            assert(values_of(r.menus@) =~= seq![
                Menu::SubMenu(MenuId::File),
                Menu::SubMenu(MenuId::Edit),
                Menu::SubMenu(MenuId::View),
                Menu::SubMenu(MenuId::About),
            ]);
            assert(values_of(r.menus@[0].kids@) =~= seq![Menu::Item(Action::OpenFolder), Menu::Separator, Menu::Item(Action::ExitApp)]);
            assert(values_of(r.menus@[2].kids@) =~= seq![Menu::SubMenu(MenuId::Appearance)]);
            assert(values_of(r.menus@[2].kids@[0].kids@) =~= seq![
                Menu::Item(Action::ToggleFullScreen),
                Menu::Item(Action::ToggleStatusBar),
                Menu::Item(Action::ToggleToolBar),
                Menu::Item(Action::ToggleTerminal),
                Menu::Separator,
                Menu::Item(Action::ZoomIn),
                Menu::Item(Action::ZoomOut),
                Menu::Item(Action::ZoomReset),
            ]);
            assert(values_of(r.menus@[3].kids@) =~= seq![
                Menu::Item(Action::OpenDebugWindow),
                Menu::Item(Action::OpenPuffinViewer),
                Menu::Separator,
                Menu::Item(Action::OpenAboutWindow),
            ]);
        }
        r
    }

    /// The menu bar keeps no state that a command changes.
    pub fn handle(&mut self, _action: &Action)
        ensures
            final(self).menus == old(self).menus,
    {
    }
}

} // verus!
