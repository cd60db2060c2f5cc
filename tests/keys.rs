use editor_core::action::{parse_action, Action};
use editor_core::bus::ActionBus;
use editor_core::keymap::{
    format_key, parse_key, parse_modifier, parse_shortcut, KeyActions, KeyChord, KeyError, Modifiers,
};
use editor_core::text::menu_item_text;

fn mods(ctrl: bool, alt: bool, shift: bool) -> Modifiers {
    Modifiers { ctrl, alt, shift, ..Modifiers::none() }
}

#[test]
fn print_keyactions() {
    let mut ka = KeyActions::new(false);
    let _ = ka.init();
    for (key, act) in ka.bindings().iter() {
        let key_name = format_key(key, false);
        let action_name = act.name();
        println!("{} => {:?}:{}", key_name, act, action_name);
    }
}

#[test]
fn test_parse_key() {
    assert_eq!(parse_key("0").unwrap().name(), "0");
    assert_eq!(parse_key("A").unwrap().name(), "A");
    assert_eq!(parse_key("F1").unwrap().name(), "F1");
    assert_eq!(parse_key("Space").unwrap().name(), "Space");
    assert_eq!(parse_key("Backspace").unwrap().name(), "Backspace");
    assert_eq!(parse_key("Escape").unwrap().name(), "Escape");
    assert_eq!(parse_key("Plus").unwrap().name(), "Plus");
    assert_eq!(parse_key("Minus").unwrap().name(), "Minus");
    assert_eq!(parse_key("Tab").unwrap().name(), "Tab");
    assert_eq!(parse_key("Enter").unwrap().name(), "Enter");
    assert_eq!(parse_key("End").unwrap().name(), "End");
    assert_eq!(parse_key("PageUp").unwrap().name(), "PageUp");
    assert_eq!(parse_key("Up").unwrap().name(), "Up");
}

#[test]
fn test_parse_modifier() {
    assert_eq!(parse_modifier("Cmd", false).unwrap(), Modifiers { command: true, ..Modifiers::none() });
    assert_eq!(parse_modifier("Ctrl", false).unwrap(), mods(true, false, false));
    assert_eq!(parse_modifier("Shift", false).unwrap(), mods(false, false, true));
    assert_eq!(parse_modifier("Alt", false).unwrap(), mods(false, true, false));
}

#[test]
fn test_parse_shortcut() {
    let k = parse_shortcut("Alt+Shift+Ctrl+K", false).unwrap();
    assert_eq!(k.modifiers, mods(true, true, true));
    assert_eq!(k.key.name(), "K");
}

#[test]
fn test_action_compare() {
    assert_eq!(Action::ToggleFullScreen, Action::ToggleFullScreen);
}

#[test]
fn test_parse_action() {
    assert_eq!(Action::ToggleFullScreen, "ToggleFullScreen".parse::<Action>().unwrap());
}

#[test]
fn parse_action_unknown_names() {
    assert_eq!(parse_action("ZoomIn"), Ok(Action::ZoomIn));
    assert_eq!(parse_action("ExitApp"), Ok(Action::ExitApp));
    for a in [Action::NoOp, Action::OpenAboutWindow, Action::OpenSettingWindow, Action::ToggleVerticalTabBar] {
        assert_eq!(parse_action(a.name()), Ok(a.clone()));
    }
    assert_eq!(parse_action("ZoomSet"), Err("ZoomSet".to_string()));
    assert_eq!(parse_action("Nope"), Err("Nope".to_string()));
}

#[test]
fn action_names_are_stable() {
    assert_eq!(Action::SetOpenDir("x".to_string()).name(), "SetOpenDir");
    assert_eq!(Action::ZoomSet(12).name(), "ZoomSet");
    assert_eq!(Action::OpenPuffinViewer.name(), "OpenPuffinViewer");
    assert!(Action::ZoomSet(3).same(&Action::ZoomSet(3)));
    assert!(!Action::ZoomSet(3).same(&Action::ZoomSet(4)));
    assert!(!Action::ZoomIn.same(&Action::ZoomOut));
}

#[test]
fn chord_round_trip_reorders_modifiers() {
    let c = parse_shortcut("Shift+Alt+K", false).unwrap();
    let text = format_key(&c, false);
    assert_eq!(text, "Alt+Shift+K");
    let back = parse_shortcut(&text, false).unwrap();
    assert!(back.same(&c));
}

#[test]
fn chord_round_trip_single_key_and_mac() {
    let c = parse_shortcut("F11", false).unwrap();
    assert_eq!(format_key(&c, false), "F11");
    let m = parse_shortcut("Cmd+Shift+Q", true).unwrap();
    assert_eq!(m.modifiers, Modifiers { shift: true, mac_cmd: true, ..Modifiers::none() });
    assert_eq!(format_key(&m, true), "Shift+Cmd+Q");
    assert!(parse_shortcut(&format_key(&m, true), true).unwrap().same(&m));
}

#[test]
fn alt_on_mac_round_trips_through_option() {
    let c = parse_shortcut("Alt+Shift+K", true).unwrap();
    let text = format_key(&c, true);
    assert_eq!(text, "Shift+Option+K");
    assert!(parse_shortcut(&text, true).unwrap().same(&c));
    assert_eq!(parse_modifier("Option", true).unwrap(), mods(false, true, false));
    assert_eq!(parse_modifier("Option", false).unwrap_err(), KeyError::UnknownModifier("Option".to_string()));
}

#[test]
fn modifier_order_does_not_matter() {
    let a = parse_shortcut("Alt+Shift+Ctrl+K", false).unwrap();
    let b = parse_shortcut("Ctrl+Alt+Shift+K", false).unwrap();
    assert!(a.same(&b));
    assert_eq!(format_key(&a, false), format_key(&b, false));
}

#[test]
fn cmd_off_mac_is_written_as_ctrl() {
    let c = parse_shortcut("Cmd+S", false).unwrap();
    assert_eq!(format_key(&c, false), "Ctrl+S");
    let back = parse_shortcut("Ctrl+S", false).unwrap();
    assert_eq!(back.modifiers, Modifiers { ctrl: true, ..Modifiers::none() });
}

#[test]
fn shortcut_errors() {
    assert_eq!(parse_shortcut("Ctrl+Alt+Shift+Cmd+K", false).unwrap_err(), KeyError::BadShortcut("Ctrl+Alt+Shift+Cmd+K".to_string()));
    assert_eq!(parse_shortcut("Ctrl+Nope", false).unwrap_err(), KeyError::UnknownKey("Nope".to_string()));
    assert_eq!(parse_shortcut("Ctrl+Hyper+K", false).unwrap_err(), KeyError::UnknownModifier("Hyper".to_string()));
    assert_eq!(parse_shortcut("", false).unwrap_err(), KeyError::UnknownKey(String::new()));
    assert_eq!(parse_shortcut("+", false).unwrap_err(), KeyError::UnknownKey(String::new()));
    assert_eq!(parse_key("k").unwrap_err(), KeyError::UnknownKey("k".to_string()));
}

#[test]
fn insert_twice_conflicts_and_keeps_binding() {
    let mut ka = KeyActions::new(false);
    let c = parse_shortcut("Ctrl+Shift+O", false).unwrap();
    assert!(ka.insert(c.clone(), Action::OpenFolder).is_ok());
    let err = ka.insert(c.clone(), Action::ExitApp).unwrap_err();
    assert_eq!(
        err,
        KeyError::Conflict { shortcut: "Ctrl+Shift+O".to_string(), action: "OpenFolder".to_string() }
    );
    assert_eq!(ka.bindings().len(), 1);
    assert_eq!(ka.bindings()[0].1, Action::OpenFolder);
}

#[test]
fn default_table_loads() {
    let mut ka = KeyActions::new(false);
    assert!(ka.load_default().is_ok());
    assert_eq!(ka.bindings().len(), 16);
    let keys = ka.get_action_keys(&Action::ToggleFullScreen);
    let texts: Vec<String> = keys.iter().map(|k| format_key(k, false)).collect();
    assert_eq!(texts, vec!["Alt+Enter".to_string(), "F11".to_string()]);
    assert!(ka.get_action_keys(&Action::NoOp).is_empty());
    assert!(ka.load_default().is_err());
}

#[test]
fn pressed_chords_reach_the_bus() {
    let mut ka = KeyActions::new(false);
    ka.init().unwrap();
    let mut bus = ActionBus::new(10);
    let pressed: Vec<KeyChord> = vec![
        parse_shortcut("F12", false).unwrap(),
        parse_shortcut("Alt+1", false).unwrap(),
        parse_shortcut("Ctrl+K", false).unwrap(),
    ];
    ka.bind_to_context(&pressed, &mut bus);
    assert_eq!(bus.drain_all(), vec![Action::OpenDebugWindow, Action::ToggleExplorer]);
    ka.bind_to_context(&Vec::new(), &mut bus);
    assert_eq!(bus.len(), 0);
}

#[test]
fn bus_drops_when_full_and_keeps_order() {
    let mut bus = ActionBus::new(2);
    assert!(bus.send(Action::ZoomIn));
    assert!(bus.send(Action::ZoomOut));
    assert!(!bus.send(Action::ZoomReset));
    assert_eq!(bus.drain_all(), vec![Action::ZoomIn, Action::ZoomOut]);
    assert!(bus.drain_all().is_empty());
}

#[test]
fn menu_item_text_pads_columns() {
    let c = parse_shortcut("Ctrl+Plus", false).unwrap();
    assert_eq!(menu_item_text(&Action::ZoomIn, &vec![c], false), format!("{:<15}{:>15}", "ZoomIn", "Ctrl+Plus"));
    assert_eq!(menu_item_text(&Action::ZoomOut, &Vec::new(), false), "ZoomOut");
}
