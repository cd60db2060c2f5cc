use editor_core::action::Action;
use editor_core::app_state::{Effect, MyApp};
use editor_core::file_tree::{load_children, ChildRef, DirEntry, EntryKind, FileTree, Node};
use editor_core::font::NerdFont;
use editor_core::menu_bar::{Menu, MenuBar, MenuId};
use editor_core::paths::{compare_paths, name_of, path_name_of, strip_root};
use editor_core::status_bar::{ItemId, StatusBar};
use editor_core::text::{menu_text, tool_hover_text, window_title};
use editor_core::tool_bar::{ToolBar, ToolId};
use editor_core::tree::Tree;
use editor_core::ui::{dark_mode, sync_mode, zoom_clamp, DisplayMode};
use editor_core::window::{ExitWindow, SettingWindow, WindowId};

fn dir(path: &str) -> DirEntry {
    DirEntry { path: path.to_string(), kind: EntryKind::Dir }
}

fn file(path: &str) -> DirEntry {
    DirEntry { path: path.to_string(), kind: EntryKind::File }
}

fn child_paths(tree: &FileTree, i: usize) -> Vec<String> {
    tree.node(i).children().unwrap().iter().map(|c| c.path.clone()).collect()
}

fn child_index(tree: &FileTree, i: usize, k: usize) -> usize {
    tree.node(i).children().unwrap()[k].index
}

#[test]
fn test_load_children() {
    let mut tree = FileTree::new("/work".to_string());
    load_children(&mut tree, 0, Some(vec![file("/work/Cargo.toml"), dir("/work/src"), file("/work/README.md")]));
    let node = tree.node(0);
    println!("children count => {}", node.children().unwrap().len());
    println!("children => {:#?}", child_paths(&tree, 0));
    assert!(!node.children().unwrap().is_empty());
}

#[test]
fn load_orders_dirs_first_then_paths() {
    let mut tree = FileTree::new("/r".to_string());
    load_children(
        &mut tree,
        0,
        Some(vec![
            file("/r/b.txt"),
            dir("/r/z"),
            DirEntry { path: "/r/sock".to_string(), kind: EntryKind::Other },
            file("/r/a.txt"),
            dir("/r/m"),
        ]),
    );
    assert_eq!(child_paths(&tree, 0), vec!["/r/m", "/r/z", "/r/a.txt", "/r/b.txt"]);
    assert_eq!(tree.len(), 5);
    let z = child_index(&tree, 0, 1);
    assert!(tree.node(z).is_dir());
    assert!(!tree.node(z).is_expand());
    assert_eq!(tree.node(z).name(), "z");
}

#[test]
fn load_is_lazy_and_best_effort() {
    let mut tree = FileTree::new("/r".to_string());
    load_children(&mut tree, 0, None);
    assert_eq!(tree.len(), 1);
    assert!(tree.wants_children(0));
    load_children(&mut tree, 0, Some(vec![dir("/r/d")]));
    assert!(!tree.wants_children(0));
    load_children(&mut tree, 0, Some(vec![dir("/r/e")]));
    assert_eq!(child_paths(&tree, 0), vec!["/r/d"]);
    let d = child_index(&tree, 0, 0);
    load_children(&mut tree, d, Some(vec![file("/r/d/x")]));
    assert_eq!(tree.node(d).children().unwrap().len(), 0);
    tree.expand(d, true);
    assert!(tree.wants_children(d));
}

#[test]
fn root_opened_with_trailing_slash_keeps_its_name() {
    let mut tree = FileTree::new("/home/me/proj/".to_string());
    assert_eq!(tree.node(0).name(), "proj");
    load_children(&mut tree, 0, Some(vec![file("/home/me/proj/x.rs")]));
    let x = child_index(&tree, 0, 0);
    assert_eq!(tree.relative_path(x), Some("x.rs".to_string()));
    let menu = editor_core::file_tree::tree_context_menu();
    assert_eq!(menu.len(), 4);
}

#[test]
fn sample_project_tree() {
    let mut tree = FileTree::new("proj".to_string());
    load_children(&mut tree, 0, Some(vec![dir("proj/src")]));
    assert_eq!(child_paths(&tree, 0), vec!["proj/src"]);
    let src = child_index(&tree, 0, 0);
    tree.expand(src, true);
    load_children(&mut tree, src, Some(vec![file("proj/src/a.rs")]));
    assert_eq!(child_paths(&tree, src), vec!["proj/src/a.rs"]);
    let a = child_index(&tree, src, 0);
    assert!(!tree.node(a).is_dir());
    assert_eq!(tree.node(a).order(), 2);
    assert_eq!(tree.node(src).order(), 1);
    assert_eq!(tree.node(a).name(), "a.rs");
    assert_eq!(tree.relative_path(a), Some("src/a.rs".to_string()));
}

#[test]
fn three_empty_nested_dirs_show_as_one_row() {
    let mut tree = FileTree::new("root".to_string());
    load_children(&mut tree, 0, Some(vec![dir("root/a")]));
    let a = child_index(&tree, 0, 0);
    tree.expand(a, true);
    load_children(&mut tree, a, Some(vec![dir("root/a/b")]));
    let b = child_index(&tree, a, 0);
    tree.expand(b, true);
    load_children(&mut tree, b, Some(vec![dir("root/a/b/c")]));
    let c = child_index(&tree, b, 0);
    assert_eq!(tree.collapsed_chain(a), (c, "a/b/c".to_string()));
    assert!(a != b && b != c && a != c);
    assert!(tree.node(a).is_dir() && tree.node(b).is_dir() && tree.node(c).is_dir());
    assert_eq!(tree.node(c).children().unwrap().len(), 0);
    assert_eq!(tree.collapsed_chain(c), (c, "c".to_string()));
}

#[test]
fn node_methods() {
    let mut n = Node::Dir { path: "/p/q".to_string(), children: Vec::new(), parent: None, expand: false };
    assert!(n.need_load_children());
    assert!(n.add_child(ChildRef { order: 2, path: "/p/q/b".to_string(), index: 3 }));
    assert!(n.add_child(ChildRef { order: 1, path: "/p/q/z".to_string(), index: 4 }));
    assert!(n.add_child(ChildRef { order: 2, path: "/p/q/a".to_string(), index: 5 }));
    assert!(n.add_child(ChildRef { order: 2, path: "/p/q/a".to_string(), index: 6 }));
    let order: Vec<usize> = n.children().unwrap().iter().map(|c| c.index).collect();
    assert_eq!(order, vec![4, 5, 3]);
    n.expand(true);
    assert!(n.is_expand());
    n.set_parent(9);
    n.set_children(Vec::new());
    assert!(n.need_load_children());
    let mut f = Node::File { path: "/p/f.rs".to_string(), parent: 0 };
    assert!(!f.add_child(ChildRef { order: 2, path: "x".to_string(), index: 1 }));
    f.expand(true);
    assert!(!f.is_expand());
    assert!(f.children().is_none());
    assert!(!f.need_load_children());
    assert_eq!(f.path(), "/p/f.rs");
    assert_eq!(f.name(), "f.rs");
}

#[test]
fn path_helpers() {
    assert_eq!(compare_paths("a", "b"), -1);
    assert_eq!(compare_paths("ab", "a"), 1);
    assert_eq!(compare_paths("x", "x"), 0);
    assert_eq!(name_of("a/b/c.txt"), "c.txt");
    assert_eq!(name_of("plain"), "plain");
    assert_eq!(path_name_of("a/b/"), Some("b".to_string()));
    assert_eq!(path_name_of("foo.txt/."), Some("foo.txt".to_string()));
    assert_eq!(path_name_of("foo.txt/.//"), Some("foo.txt".to_string()));
    assert_eq!(path_name_of("a/.."), None);
    assert_eq!(path_name_of("/"), None);
    assert_eq!(path_name_of("."), None);
    assert_eq!(path_name_of(""), None);
    assert_eq!(name_of("/"), "/");
    assert_eq!(strip_root("/r/a/b", "/r/"), Some("a/b".to_string()));
    assert_eq!(strip_root("/r/", "/r"), Some(String::new()));
    assert_eq!(strip_root("/a", "/"), Some("a".to_string()));
    assert_eq!(strip_root("/r/a/b", "/r"), Some("a/b".to_string()));
    assert_eq!(strip_root("/r", "/r"), Some(String::new()));
    assert_eq!(strip_root("/rx/a", "/r"), None);
}

#[test]
fn dispatcher_opens_folder_and_shows_explorer() {
    let mut app = MyApp::new(10, false).unwrap();
    assert!(app.bus.send(Action::OpenFolder));
    assert!(app.bus.send(Action::ZoomIn));
    assert!(app.bus.send(Action::OpenPuffinViewer));
    assert_eq!(app.dispatch(), vec![Effect::PickFolder, Effect::OpenProfiler]);
    assert_eq!(app.flags.zoom, 11);
    assert!(app.bus.send(Action::SetOpenDir("/home/me/proj".to_string())));
    assert!(app.dispatch().is_empty());
    assert_eq!(app.open_dir.as_ref().unwrap().node(0).path(), "/home/me/proj");
    assert!(!app.show_explorer());
    assert_eq!(app.bus.len(), 1);
    app.dispatch();
    assert!(app.show_explorer());
    assert!(app.bus.send(Action::SetOpenDir("/other".to_string())));
    app.dispatch();
    assert_eq!(app.bus.len(), 0);
    assert!(app.bus.send(Action::ToggleExplorer));
    assert!(app.bus.send(Action::SetOpenDir("/a".to_string())));
    assert!(app.bus.send(Action::SetOpenDir("/b".to_string())));
    app.dispatch();
    assert!(!app.show_explorer());
    assert_eq!(app.bus.drain_all(), vec![Action::ToggleExplorer, Action::ToggleExplorer]);
    assert_eq!(app.open_dir.as_ref().unwrap().node(0).path(), "/b");
}

#[test]
fn switches_and_zoom() {
    let mut app = MyApp::new(39, false).unwrap();
    for a in [Action::ZoomIn, Action::ZoomIn, Action::ToggleFullScreen, Action::ToggleDecorations, Action::OpenSettingWindow] {
        app.bus.send(a);
    }
    app.dispatch();
    assert_eq!(app.flags.zoom, 40);
    assert!(app.flags.fullscreen);
    assert!(!app.flags.decorations);
    assert!(app.flags.show_setting_window);
    app.bus.send(Action::ZoomSet(0));
    app.bus.send(Action::ExitApp);
    app.dispatch();
    assert_eq!(app.flags.zoom, 2);
    assert!(app.flags.exit_app);
    app.bus.send(Action::ZoomReset);
    app.dispatch();
    assert_eq!(app.flags.zoom, 39);
    assert_eq!(zoom_clamp(100), 40);
    assert_eq!(zoom_clamp(15), 15);
}

#[test]
fn tool_bar_toggles_explorer() {
    let mut t = ToolBar::new();
    assert!(t.current_item().is_none());
    t.toggle_item(ToolId::Explorer);
    assert_eq!(t.current_item().unwrap().id, ToolId::Explorer);
    t.toggle_item(ToolId::Explorer);
    assert!(t.current_item().is_none());
    t.select_item(ToolId::Extension);
    assert_eq!(t.current_index, 2);
    t.toggle_item(ToolId::Setting);
    assert_eq!(t.current_index, 2);
    t.click_top(2);
    assert_eq!(t.current_index, usize::MAX);
    t.handle(&Action::ToggleExplorer);
    assert_eq!(t.current_index, 0);
}

#[test]
fn labels_and_windows() {
    assert_eq!(window_title(&WindowId::Exit), "\u{ea6c} Exit");
    assert_eq!(window_title(&WindowId::Debug), format!("{} {:?}", NerdFont::telescope().utf(), WindowId::Debug));
    assert_eq!(menu_text(&MenuId::Appearance), "Appearance");
    assert_eq!(tool_hover_text(&ToolId::Search), "Search");
    assert_eq!(tool_hover_text(&ToolId::Custom("a\"b".to_string())), "Custom(\"a\\\"b\")");
    assert_eq!(NerdFont::warn().class(), "nf-cod-warning");
    let mut w = ExitWindow::new();
    assert!(!w.on_frame_close_event());
    assert!(w.show);
    w.cancel();
    assert!(!w.show);
    w.confirm();
    assert!(w.on_frame_close_event());
    assert!(!w.show);
    let mut s = SettingWindow::new();
    assert!(s.change_show(true));
    assert!(!s.change_show(true));
    let mut m = DisplayMode::new();
    assert!(!sync_mode(&mut m, true));
    assert!(sync_mode(&mut m, false));
    assert!(!dark_mode(&m));
}

#[test]
fn bars_and_menus_layout() {
    let s = StatusBar::new();
    assert_eq!(s.left, vec![ItemId::Fps]);
    assert_eq!(s.center, vec![ItemId::FilePath]);
    assert_eq!(s.right, vec![ItemId::FileLineEnding, ItemId::FileEncoding, ItemId::CursorStat]);
    let m = MenuBar::new();
    assert_eq!(m.menus.len(), 4);
    assert!(matches!(m.menus[2].kids[0].value, Menu::SubMenu(MenuId::Appearance)));
    assert_eq!(m.menus[2].kids[0].kids.len(), 8);
    let t = Tree::new_branch(1u8, vec![Tree::new_leaf(2u8)]);
    assert_eq!(t.kids[0].value, 2);
}

#[test]
fn tool_bar_hover() {
    let mut t = ToolBar::new();
    t.hover_top(1, true);
    assert!(t.is_highlighted(1));
    assert!(!t.is_highlighted(0));
    t.hover_top(2, false);
    assert_eq!(t.hover_index, 1);
    t.hover_top(1, false);
    assert_eq!(t.hover_index, usize::MAX);
    t.click_top(0);
    assert!(t.is_highlighted(0));
}
