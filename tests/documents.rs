use editor_core::documents::{CloseAction, CursorRange, OpenFiles};
use editor_core::util::{
    calc_current_line_indent_space_count, calc_next_line_indent_space_count, decode, encode, guess_encoding,
    guess_line_ending, LineEnding,
};
use editor_core::documents::index_after_remove;
use editor_core::documents::{close_action_for, tab_context_menu, ContextMenu, ContextMenuAction};
use editor_core::status_bar::{decimal_text, ItemId};

fn open(files: &mut OpenFiles, path: &str, text: &str) {
    files.open_file(&path.to_string(), text.as_bytes()).unwrap();
}

fn paths(files: &OpenFiles) -> Vec<String> {
    files.files().iter().map(|f| f.path().clone()).collect()
}

fn current_path(files: &OpenFiles) -> Option<String> {
    files.current_file().map(|f| f.path().clone())
}

/// Three documents A, B, C; the ones listed in `dirty` are edited.
fn abc(dirty: &[usize]) -> OpenFiles {
    let mut files = OpenFiles::new();
    for (i, p) in ["A", "B", "C"].iter().enumerate() {
        open(&mut files, p, "text\n");
        if dirty.contains(&i) {
            files.edit_current("edited".to_string());
        }
    }
    files
}

#[test]
fn close_all_clean_leaves_nothing() {
    let mut files = abc(&[]);
    assert_eq!(files.close_files(CloseAction::CloseAll), None);
    assert!(files.is_empty());
    assert_eq!(files.current_index(), usize::MAX);
    assert!(files.current_file().is_none());
}

#[test]
fn close_other_tab_keeps_current_document() {
    let mut files = abc(&[]);
    files.select(2);
    files.close_files(CloseAction::Close(0));
    assert_eq!(current_path(&files), Some("C".to_string()));
    assert_eq!(files.current_index(), 1);
    files.select(0);
    files.close_files(CloseAction::Close(1));
    assert_eq!(current_path(&files), Some("B".to_string()));
}

#[test]
fn close_first_while_current_selects_new_first() {
    let mut files = abc(&[]);
    files.select(0);
    files.close_files(CloseAction::Close(0));
    assert_eq!(paths(&files), vec!["B", "C"]);
    assert_eq!(files.current_index(), 0);
    assert_eq!(current_path(&files), Some("B".to_string()));
}

#[test]
fn close_others_keeps_dirty_and_warns() {
    let mut files = abc(&[0]);
    files.select(1);
    let warning = files.close_files(CloseAction::CloseOthers(1));
    assert_eq!(warning, Some("A".to_string()));
    assert_eq!(paths(&files), vec!["A", "B"]);
    assert_eq!(files.current_index(), 1);
    assert_eq!(current_path(&files), Some("B".to_string()));
}

#[test]
fn close_current_selects_previous_survivor() {
    let mut files = abc(&[]);
    open(&mut files, "D", "d");
    files.select(2);
    files.close_files(CloseAction::Close(2));
    assert_eq!(paths(&files), vec!["A", "B", "D"]);
    assert_eq!(current_path(&files), Some("B".to_string()));
}

#[test]
fn close_saved_and_to_right() {
    let mut files = abc(&[1]);
    open(&mut files, "D", "d");
    files.select(3);
    assert_eq!(files.close_files(CloseAction::CloseSaved), None);
    assert_eq!(paths(&files), vec!["B"]);
    assert_eq!(files.current_index(), 0);
    let mut files = abc(&[2]);
    files.select(0);
    assert_eq!(files.close_files(CloseAction::CloseToRight(0)), Some("C".to_string()));
    assert_eq!(paths(&files), vec!["A", "C"]);
    assert_eq!(files.current_index(), 0);
    assert!(files.get_and_reset_current_index_changed());
    assert!(!files.get_and_reset_current_index_changed());
}

#[test]
fn close_when_no_survivor_precedes_current() {
    let mut files = abc(&[2]);
    open(&mut files, "D", "d");
    files.edit_current("x".to_string());
    files.select(1);
    files.close_files(CloseAction::CloseSaved);
    assert_eq!(paths(&files), vec!["C", "D"]);
    assert_eq!(files.current_index(), 0);
}

#[test]
fn open_twice_selects_without_duplicate() {
    let mut files = OpenFiles::new();
    open(&mut files, "a.rs", "fn a() {}\n");
    files.edit_current("changed".to_string());
    open(&mut files, "b.rs", "b");
    files.open_file(&"a.rs".to_string(), b"other bytes").unwrap();
    assert_eq!(paths(&files), vec!["a.rs", "b.rs"]);
    assert_eq!(files.current_index(), 0);
    let f = files.current_file().unwrap();
    assert!(f.changed());
    assert_eq!(f.content, "changed");
    assert!(files.is_current_file(&"a.rs".to_string()));
    assert_eq!(files.index_of(&"b.rs".to_string()), Some(1));
    assert_eq!(files.index_of(&"c.rs".to_string()), None);
}

#[test]
fn opened_document_facts() {
    let mut files = OpenFiles::new();
    files.open_file(&"w.txt".to_string(), "line one\r\nline two\r\n".as_bytes()).unwrap();
    let f = files.current_file().unwrap();
    assert_eq!(f.line_ending(), LineEnding::Crlf);
    assert_eq!(f.line_ending().as_str(), "CRLF");
    assert!(!f.changed());
    assert_eq!(f.cursor_stat(), None);
    assert_eq!(f.encoded_content().unwrap(), "line one\r\nline two\r\n".as_bytes());
    files.set_current_cursor(Some(CursorRange { row: 1, column: 4, primary: 14, secondary: 10 }));
    assert_eq!(files.current_file().unwrap().cursor_stat(), Some((2, 5, 4)));
    files.edit_current("new".to_string());
    assert!(files.current_file().unwrap().changed());
    files.mark_saved(0);
    assert!(!files.current_file().unwrap().changed());
}

#[test]
fn utf8_file_is_detected_and_decoded() {
    let bytes = "héllo wörld, ça va très bien, naïve café".as_bytes();
    assert_eq!(guess_encoding(bytes), "UTF-8");
    let mut files = OpenFiles::new();
    files.open_file(&"u.txt".to_string(), bytes).unwrap();
    assert_eq!(files.current_file().unwrap().content, "héllo wörld, ça va très bien, naïve café");
    assert_eq!(files.current_file().unwrap().encoding(), "UTF-8");
}

#[test]
fn legacy_encoding_round_trip() {
    assert_eq!(decode("windows-1252", &[0x63, 0x61, 0x66, 0xE9]), Some("café".to_string()));
    assert_eq!(encode("windows-1252", "café"), Some(vec![0x63, 0x61, 0x66, 0xE9]));
    assert_eq!(decode("UTF-8", &[0xFF, 0xFE, 0x41]), None);
    assert_eq!(decode("no-such-encoding", b"abc"), None);
    assert_eq!(encode("no-such-encoding", "abc"), None);
}

#[test]
fn line_endings() {
    assert_eq!(guess_line_ending("a\r\nb"), LineEnding::Crlf);
    assert_eq!(guess_line_ending("a\nb\r"), LineEnding::Lf);
    assert_eq!(guess_line_ending("abc"), LineEnding::Unknown);
    assert_eq!(guess_line_ending(""), LineEnding::Unknown);
    let late = format!("{}\r\n", "x".repeat(1000));
    assert_eq!(guess_line_ending(&late), LineEnding::Unknown);
    let edge = format!("{}\r\n", "x".repeat(998));
    assert_eq!(guess_line_ending(&edge), LineEnding::Crlf);
    assert_eq!(LineEnding::Unknown.as_str(), "UNKNOWN");
    assert_eq!(LineEnding::Lf.as_str(), "LF");
}

#[test]
fn indentation() {
    assert_eq!(calc_current_line_indent_space_count("  \tx"), 6);
    assert_eq!(calc_current_line_indent_space_count(""), 0);
    assert_eq!(calc_next_line_indent_space_count("    fn a() {"), 8);
    assert_eq!(calc_next_line_indent_space_count("let v = [ \t "), 4);
    assert_eq!(calc_next_line_indent_space_count("  x"), 2);
    assert_eq!(calc_next_line_indent_space_count("   "), 3);
}

#[test]
fn index_after_removal() {
    assert_eq!(index_after_remove(5, &[1, 3, 7]), 3);
    assert_eq!(index_after_remove(0, &[]), 0);
    assert_eq!(index_after_remove(2, &[2]), 2);
}

#[test]
fn tab_titles_and_relative_paths() {
    let mut files = OpenFiles::new();
    open(&mut files, "/proj/src/main.rs", "fn main() {}\n");
    let f = files.current_file().unwrap();
    assert_eq!(f.tab_title(), "main.rs");
    assert_eq!(f.relative_path(Some(&"/proj".to_string())), "src/main.rs");
    assert_eq!(f.relative_path(Some(&"/elsewhere".to_string())), "/proj/src/main.rs");
    assert_eq!(f.relative_path(None), "/proj/src/main.rs");
    files.edit_current("fn main() { }\n".to_string());
    assert_eq!(files.current_file().unwrap().tab_title(), "main.rs [+]");
    assert_eq!(close_action_for(ContextMenuAction::CloseOthers, 3), Some(CloseAction::CloseOthers(3)));
    assert_eq!(close_action_for(ContextMenuAction::CloseSaved, 3), Some(CloseAction::CloseSaved));
    assert_eq!(close_action_for(ContextMenuAction::CopyFullPath, 3), None);
    let menu = tab_context_menu();
    assert_eq!(menu.len(), 9);
    assert_eq!(menu[7], ContextMenu::Separator);
}

#[test]
fn status_item_texts() {
    assert_eq!(decimal_text(0), "0");
    assert_eq!(decimal_text(1207), "1207");
    let mut files = OpenFiles::new();
    open(&mut files, "/p/a.txt", "x\ny\n");
    files.set_current_cursor(Some(CursorRange { row: 9, column: 0, primary: 3, secondary: 15 }));
    files.edit_current("z".to_string());
    let f = files.current_file();
    assert_eq!(ItemId::FilePath.item_text(f), Some("/p/a.txt [+]".to_string()));
    assert_eq!(ItemId::FileLineEnding.item_text(f), Some("LF".to_string()));
    assert_eq!(ItemId::CursorStat.item_text(f), Some("Row 10, Col 1 (12 Selected)".to_string()));
    assert!(ItemId::FileEncoding.item_text(f).is_some());
    assert_eq!(ItemId::Fps.item_text(f), None);
    assert_eq!(ItemId::FilePath.item_text(None), None);
}
