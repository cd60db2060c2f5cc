//! The open documents (tabs): which are open, which one is current, which
//! hold unsaved edits, and how a batch close moves the current selection.
use vstd::prelude::*;

use crate::paths::{display_name, name_of, relative_to, strip_root};
use crate::util::{
    decoded_text, encoded_text, guess_encoding, guess_line_ending, guessed_encoding,
    line_ending_of, sample_of, LineEnding,
};

verus! {

/// The cursor and selection that the text widget reports for a document:
/// zero-based row and column of the primary cursor, and the character
/// offsets of the primary and secondary ends of the selection.
#[derive(Debug, Clone, Copy, PartialEq, Eq, Structural)]
pub struct CursorRange {
    pub row: usize,
    pub column: usize,
    pub primary: usize,
    pub secondary: usize,
}

/// `n + 1`, held at the largest `usize`.
pub open spec fn one_based(n: usize) -> usize {
    if n == usize::MAX {
        n
    } else {
        (n + 1) as usize
    }
}

pub open spec fn distance(a: usize, b: usize) -> usize {
    if a >= b {
        (a - b) as usize
    } else {
        (b - a) as usize
    }
}

/// One open file.
pub struct OpenFile {
    /// The decoded text.
    pub content: String,
    pub path: String,
    /// Whether the text holds edits not yet saved.
    pub changed: bool,
    pub cursor_range: Option<CursorRange>,
    /// The name of the byte encoding the file was read with.
    pub encoding: String,
    pub line_ending: LineEnding,
}

/// Reading a file's bytes as text failed.
#[derive(Debug)]
pub struct DecodeError {
    pub path: String,
    pub encoding: String,
}

/// Whether `f` is the document made from the bytes of the file at `path`:
/// decoded with the guessed encoding, unchanged, without a cursor.
pub open spec fn doc_from(f: OpenFile, path: Seq<char>, bytes: Seq<u8>) -> bool {
    &&& f.path@ == path
    &&& !f.changed
    &&& f.cursor_range is None
    &&& f.encoding@ == guessed_encoding(bytes)
    &&& decoded_text(guessed_encoding(bytes), bytes) == Some(f.content@)
    &&& f.line_ending == line_ending_of(sample_of(f.content@))
}

/// Whether the bytes of a file decode with the encoding guessed for them.
pub open spec fn decodes(bytes: Seq<u8>) -> bool {
    decoded_text(guessed_encoding(bytes), bytes) is Some
}

impl OpenFile {
    /// Makes the document for the file at `path` from its bytes.
    pub fn new(path: &String, bytes: &[u8]) -> (r: Result<OpenFile, DecodeError>)
        ensures
            r is Ok <==> decodes(bytes@),
            r matches Ok(f) ==> doc_from(f, path@, bytes@),
            r matches Err(e) ==> e.path@ == path@ && e.encoding@ == guessed_encoding(bytes@),
    {
        let encoding = guess_encoding(bytes);
        match crate::util::decode(encoding.as_str(), bytes) {
            None => Err(DecodeError { path: path.clone(), encoding }),
            Some(content) => {
                let line_ending = guess_line_ending(content.as_str());
                Ok(OpenFile {
                    content,
                    path: path.clone(),
                    changed: false,
                    cursor_range: None,
                    encoding,
                    line_ending,
                })
            },
        }
    }

    pub fn path(&self) -> (r: &String)
        ensures
            r == self.path,
    {
        &self.path
    }

    pub fn encoding(&self) -> (r: &str)
        ensures
            r@ == self.encoding@,
    {
        self.encoding.as_str()
    }

    pub fn line_ending(&self) -> (r: LineEnding)
        ensures
            r == self.line_ending,
    {
        self.line_ending
    }

    pub fn changed(&self) -> (r: bool)
        ensures
            r == self.changed,
    {
        self.changed
    }

    pub fn mark_changed(&mut self)
        ensures
            final(self).changed,
            final(self).content == old(self).content,
            final(self).path == old(self).path,
            final(self).encoding == old(self).encoding,
            final(self).line_ending == old(self).line_ending,
            final(self).cursor_range == old(self).cursor_range,
    {
        self.changed = true;
    }

    /// The title of the document's tab: its file name, marked ` [+]` while it
    /// holds unsaved edits.
    pub fn tab_title(&self) -> (r: String)
        ensures
            r@ == display_name(self.path@) + (if self.changed {
                " [+]"@
            } else {
                Seq::empty()
            }),
    {
        let mut t = name_of(self.path.as_str());
        if self.changed {
            t.append(" [+]");
        } else {
            assert(t@ =~= t@ + Seq::<char>::empty());
        }
        t
    }

    /// The document's path relative to the opened directory, or the whole
    /// path when it lies elsewhere or no directory is open.
    pub fn relative_path(&self, open_dir: Option<&String>) -> (r: String)
        ensures
            r@ == (match open_dir {
                Some(d) => match relative_to(self.path@, d@) {
                    Some(p) => p,
                    None => self.path@,
                },
                None => self.path@,
            }),
    {
        match open_dir {
            Some(d) => match strip_root(self.path.as_str(), d.as_str()) {
                Some(p) => p,
                None => self.path.clone(),
            },
            None => self.path.clone(),
        }
    }

    /// The content in the document's own encoding, ready to be written back;
    /// `None` when the encoding's name is not known.
    pub fn encoded_content(&self) -> (r: Option<Vec<u8>>)
        ensures
            r matches Some(b) ==> encoded_text(self.encoding@, self.content@) == Some(b@),
            r is None ==> encoded_text(self.encoding@, self.content@) is None,
    {
        crate::util::encode(self.encoding.as_str(), self.content.as_str())
    }

    /// One-based row and column of the cursor and the length of the
    /// selection, when the text widget has reported a cursor.
    pub fn cursor_stat(&self) -> (r: Option<(usize, usize, usize)>)
        ensures
            r == (match self.cursor_range {
                Some(c) => Some((one_based(c.row), one_based(c.column), distance(c.primary, c.secondary))),
                None => None,
            }),
    {
        match self.cursor_range {
            Some(c) => {
                let row = if c.row == usize::MAX { c.row } else { c.row + 1 };
                let column = if c.column == usize::MAX { c.column } else { c.column + 1 };
                let selected = if c.primary >= c.secondary {
                    c.primary - c.secondary
                } else {
                    c.secondary - c.primary
                };
                Some((row, column, selected))
            },
            None => None,
        }
    }
}

/// Which tabs a close applies to.
#[derive(Debug, Clone, Copy, PartialEq, Eq, Structural)]
pub enum CloseAction {
    Close(usize),
    CloseOthers(usize),
    CloseToRight(usize),
    CloseSaved,
    CloseAll,
}

/// The entries of a tab's context menu.
#[derive(Debug, Clone, Copy, PartialEq, Eq, Structural)]
pub enum ContextMenu {
    Separator,
    Item(ContextMenuAction),
}

#[derive(Debug, Clone, Copy, PartialEq, Eq, Structural)]
pub enum ContextMenuAction {
    Close,
    CloseAll,
    CloseOthers,
    CloseToRight,
    CloseSaved,
    CopyFullPath,
    CopyRelativePath,
    OpenInNative,
}

/// The close that an entry of the context menu of the tab at `index` asks
/// for; the other entries ask for none.
pub open spec fn spec_close_action_for(action: ContextMenuAction, index: usize) -> Option<CloseAction> {
    match action {
        ContextMenuAction::Close => Some(CloseAction::Close(index)),
        ContextMenuAction::CloseAll => Some(CloseAction::CloseAll),
        ContextMenuAction::CloseOthers => Some(CloseAction::CloseOthers(index)),
        ContextMenuAction::CloseToRight => Some(CloseAction::CloseToRight(index)),
        ContextMenuAction::CloseSaved => Some(CloseAction::CloseSaved),
        _ => None,
    }
}

pub fn close_action_for(action: ContextMenuAction, index: usize) -> (r: Option<CloseAction>)
    ensures
        r == spec_close_action_for(action, index),
{
    match action {
        ContextMenuAction::Close => Some(CloseAction::Close(index)),
        ContextMenuAction::CloseAll => Some(CloseAction::CloseAll),
        ContextMenuAction::CloseOthers => Some(CloseAction::CloseOthers(index)),
        ContextMenuAction::CloseToRight => Some(CloseAction::CloseToRight(index)),
        ContextMenuAction::CloseSaved => Some(CloseAction::CloseSaved),
        _ => None,
    }
}

/// The entries of a tab's context menu, in order.
pub fn tab_context_menu() -> (r: Vec<ContextMenu>)
    ensures
        r@ == seq![
            ContextMenu::Item(ContextMenuAction::Close),
            ContextMenu::Item(ContextMenuAction::CloseOthers),
            ContextMenu::Item(ContextMenuAction::CloseToRight),
            ContextMenu::Item(ContextMenuAction::CloseSaved),
            ContextMenu::Item(ContextMenuAction::CloseAll),
            ContextMenu::Item(ContextMenuAction::CopyFullPath),
            ContextMenu::Item(ContextMenuAction::CopyRelativePath),
            ContextMenu::Separator,
            ContextMenu::Item(ContextMenuAction::OpenInNative),
        ],
{
    let mut r: Vec<ContextMenu> = Vec::new();
    r.push(ContextMenu::Item(ContextMenuAction::Close));
    r.push(ContextMenu::Item(ContextMenuAction::CloseOthers));
    r.push(ContextMenu::Item(ContextMenuAction::CloseToRight));
    r.push(ContextMenu::Item(ContextMenuAction::CloseSaved));
    r.push(ContextMenu::Item(ContextMenuAction::CloseAll));
    r.push(ContextMenu::Item(ContextMenuAction::CopyFullPath));
    r.push(ContextMenu::Item(ContextMenuAction::CopyRelativePath));
    r.push(ContextMenu::Separator);
    r.push(ContextMenu::Item(ContextMenuAction::OpenInNative));
    assert(r@ =~= seq![
        ContextMenu::Item(ContextMenuAction::Close),
        ContextMenu::Item(ContextMenuAction::CloseOthers),
        ContextMenu::Item(ContextMenuAction::CloseToRight),
        ContextMenu::Item(ContextMenuAction::CloseSaved),
        ContextMenu::Item(ContextMenuAction::CloseAll),
        ContextMenu::Item(ContextMenuAction::CopyFullPath),
        ContextMenu::Item(ContextMenuAction::CopyRelativePath),
        ContextMenu::Separator,
        ContextMenu::Item(ContextMenuAction::OpenInNative),
    ]);
    r
}

/// A close that names one tab names one that exists.
pub open spec fn action_in_range(action: CloseAction, len: int) -> bool {
    match action {
        CloseAction::Close(k) => k < len,
        CloseAction::CloseOthers(k) => k < len,
        _ => true,
    }
}

/// Whether the close applies to the tab at `i`.
pub open spec fn is_selected(action: CloseAction, files: Seq<OpenFile>, i: int) -> bool {
    &&& 0 <= i < files.len()
    &&& match action {
        CloseAction::Close(k) => i == k,
        CloseAction::CloseOthers(k) => i != k,
        CloseAction::CloseToRight(k) => i > k,
        CloseAction::CloseSaved => !files[i].changed,
        CloseAction::CloseAll => true,
    }
}

/// Whether the close removes the tab at `i`: it applies to it and the tab
/// holds no unsaved edits.
pub open spec fn is_removed(action: CloseAction, files: Seq<OpenFile>, i: int) -> bool {
    is_selected(action, files, i) && !files[i].changed
}

/// How many of the tabs before `n` the close removes.
pub open spec fn removed_before(action: CloseAction, files: Seq<OpenFile>, n: int) -> nat
    decreases n,
{
    if n <= 0 {
        0
    } else {
        removed_before(action, files, n - 1) + (if is_removed(action, files, n - 1) {
            1nat
        } else {
            0nat
        })
    }
}

/// The tabs before `n` that the close keeps, in their order.
pub open spec fn survivors(action: CloseAction, files: Seq<OpenFile>, n: int) -> Seq<OpenFile>
    decreases n,
{
    if n <= 0 {
        Seq::empty()
    } else if is_removed(action, files, n - 1) {
        survivors(action, files, n - 1)
    } else {
        survivors(action, files, n - 1).push(files[n - 1])
    }
}

/// The first tab before `n` that the close applies to but keeps for its
/// unsaved edits.
pub open spec fn first_unsaved(action: CloseAction, files: Seq<OpenFile>, n: int) -> Option<int>
    decreases n,
{
    if n <= 0 {
        None
    } else {
        match first_unsaved(action, files, n - 1) {
            Some(k) => Some(k),
            None => if is_selected(action, files, n - 1) && files[n - 1].changed {
                Some(n - 1)
            } else {
                None
            },
        }
    }
}

proof fn lemma_first_unsaved_range(action: CloseAction, files: Seq<OpenFile>, n: int)
    ensures
        first_unsaved(action, files, n) matches Some(k) ==> 0 <= k < n && k < files.len(),
    decreases n,
{
    if n > 0 {
        lemma_first_unsaved_range(action, files, n - 1);
    }
}

/// The current index after the close: none when no tab is left; the first
/// tab when one is left or the first tab was current; else the current
/// tab at its new place, or, when it was removed, the tab left just before
/// it (the first tab when none is).
pub open spec fn index_after_close(action: CloseAction, files: Seq<OpenFile>, current: int) -> int {
    let left = survivors(action, files, files.len() as int).len();
    let before = removed_before(action, files, current);
    if left == 0 {
        usize::MAX as int
    } else if left == 1 || current == 0 {
        0
    } else if is_removed(action, files, current) {
        if current - before == 0 {
            0
        } else {
            current - before - 1
        }
    } else {
        current - before
    }
}

proof fn lemma_removed_before_mono(action: CloseAction, files: Seq<OpenFile>, a: int, b: int)
    requires
        a <= b,
    ensures
        removed_before(action, files, a) <= removed_before(action, files, b),
        b >= 0 ==> removed_before(action, files, b) - removed_before(action, files, a) <= b - (if a < 0 { 0 } else { a }),
    decreases b - a,
{
    if a < b {
        lemma_removed_before_mono(action, files, a, b - 1);
    }
}

/// The place in the old list of the tab that a close before `n` keeps at
/// place `k`.
pub open spec fn source_index(action: CloseAction, files: Seq<OpenFile>, n: int, k: int) -> int
    decreases n,
{
    if n <= 0 {
        0
    } else if !is_removed(action, files, n - 1) && k == survivors(action, files, n - 1).len() {
        n - 1
    } else {
        source_index(action, files, n - 1, k)
    }
}

/// What the close keeps: its length, where each kept tab lands, and where
/// each kept tab comes from.
proof fn lemma_survivors(action: CloseAction, files: Seq<OpenFile>, n: int)
    requires
        0 <= n <= files.len(),
    ensures
        survivors(action, files, n).len() == n - removed_before(action, files, n),
        forall|j: int|
            0 <= j < n && !is_removed(action, files, j) ==> #[trigger] survivors(action, files, n)[j
                - removed_before(action, files, j)] == files[j],
        forall|k: int|
            0 <= k < survivors(action, files, n).len() ==> {
                let j = #[trigger] source_index(action, files, n, k);
                &&& 0 <= j < n
                &&& !is_removed(action, files, j)
                &&& k == j - removed_before(action, files, j)
                &&& survivors(action, files, n)[k] == files[j]
            },
    decreases n,
{
    if n > 0 {
        lemma_survivors(action, files, n - 1);
        lemma_removed_before_mono(action, files, 0, n - 1);
        let s = survivors(action, files, n);
        let p = survivors(action, files, n - 1);
        assert forall|j: int|
            0 <= j < n && !is_removed(action, files, j) implies #[trigger] s[j - removed_before(action, files, j)] == files[j] by {
            lemma_removed_before_mono(action, files, 0, j);
            if j < n - 1 {
                lemma_removed_before_mono(action, files, j + 1, n - 1);
                assert(removed_before(action, files, j + 1) == removed_before(action, files, j));
                assert(j - removed_before(action, files, j) < p.len());
                assert(p[j - removed_before(action, files, j)] == files[j]);
                assert(s[j - removed_before(action, files, j)] == p[j - removed_before(action, files, j)]);
            } else {
                assert(j - removed_before(action, files, j) == p.len());
            }
        }
        assert forall|k: int| 0 <= k < s.len() implies {
            let j = #[trigger] source_index(action, files, n, k);
            &&& 0 <= j < n
            &&& !is_removed(action, files, j)
            &&& k == j - removed_before(action, files, j)
            &&& s[k] == files[j]
        } by {
            if k < p.len() {
                assert(source_index(action, files, n, k) == source_index(action, files, n - 1, k));
                let j = source_index(action, files, n - 1, k);
                assert(s[k] == p[k]);
            } else {
                assert(!is_removed(action, files, n - 1));
                assert(source_index(action, files, n, k) == n - 1);
            }
        }
    }
}

/// Whether no two documents share a path.
pub open spec fn unique_paths(files: Seq<OpenFile>) -> bool {
    forall|i: int, j: int| 0 <= i < j < files.len() ==> (#[trigger] files[i]).path@ != (#[trigger] files[j]).path@
}

proof fn lemma_survivors_unique(action: CloseAction, files: Seq<OpenFile>)
    requires
        unique_paths(files),
    ensures
        unique_paths(survivors(action, files, files.len() as int)),
{
    let n = files.len() as int;
    let s = survivors(action, files, n);
    lemma_survivors(action, files, n);
    assert forall|a: int, b: int| 0 <= a < b < s.len() implies (#[trigger] s[a]).path@ != (#[trigger] s[b]).path@ by {
        let ja = source_index(action, files, n, a);
        let jb = source_index(action, files, n, b);
        if ja < jb {
            assert(files[ja].path@ != files[jb].path@);
        } else {
            assert(files[jb].path@ != files[ja].path@);
        }
    }
}

/// The number of items of `s` below `x`.
pub open spec fn count_below(s: Seq<usize>, x: usize) -> nat
    decreases s.len(),
{
    if s.len() == 0 {
        0
    } else {
        count_below(s.drop_last(), x) + (if s.last() < x { 1nat } else { 0nat })
    }
}

proof fn lemma_count_below_push(s: Seq<usize>, v: usize, x: usize)
    ensures
        count_below(s.push(v), x) == count_below(s, x) + (if v < x { 1nat } else { 0nat }),
{
    assert(s.push(v).drop_last() =~= s);
}

/// Where the item at `index` lands once the items at the indices of
/// `to_remove_index_list` are taken out.
pub fn index_after_remove(index: usize, to_remove_index_list: &[usize]) -> (r: usize)
    requires
        count_below(to_remove_index_list@, index) <= index,
    ensures
        r == index - count_below(to_remove_index_list@, index),
{
    let n = to_remove_index_list.len();
    let mut below: usize = 0;
    let mut i: usize = 0;
    while i < n
        invariant
            n == to_remove_index_list@.len(),
            i <= n,
            below == count_below(to_remove_index_list@.subrange(0, i as int), index),
            count_below(to_remove_index_list@, index) <= index,
        decreases n - i,
    {
        proof {
            let s = to_remove_index_list@;
            lemma_count_below_push(s.subrange(0, i as int), s[i as int], index);
            assert(s.subrange(0, i as int).push(s[i as int]) =~= s.subrange(0, i + 1));
            lemma_count_below_prefix(s, (i + 1) as int, index);
        }
        if to_remove_index_list[i] < index {
            below = below + 1;
        }
        i = i + 1;
    }
    assert(to_remove_index_list@.subrange(0, n as int) =~= to_remove_index_list@);
    index - below
}

proof fn lemma_count_below_prefix(s: Seq<usize>, k: int, x: usize)
    requires
        0 <= k <= s.len(),
    ensures
        count_below(s.subrange(0, k), x) <= count_below(s, x),
    decreases s.len(),
{
    if k < s.len() {
        assert(s.drop_last().subrange(0, k) =~= s.subrange(0, k));
        lemma_count_below_prefix(s.drop_last(), k, x);
    } else {
        assert(s.subrange(0, k) =~= s);
    }
}

proof fn lemma_all_removed(action: CloseAction, files: Seq<OpenFile>, n: int)
    requires
        0 <= n <= files.len(),
        forall|i: int| 0 <= i < n ==> is_removed(action, files, i),
    ensures
        removed_before(action, files, n) == n,
    decreases n,
{
    if n > 0 {
        lemma_all_removed(action, files, n - 1);
    }
}

/// Closing all tabs when none holds unsaved edits leaves no tab open and
/// the current index at "none".
pub proof fn lemma_close_all_clean(files: Seq<OpenFile>, current: int)
    requires
        forall|i: int| 0 <= i < files.len() ==> !(#[trigger] files[i]).changed,
    ensures
        survivors(CloseAction::CloseAll, files, files.len() as int).len() == 0,
        index_after_close(CloseAction::CloseAll, files, current) == usize::MAX,
{
    lemma_all_removed(CloseAction::CloseAll, files, files.len() as int);
    lemma_survivors(CloseAction::CloseAll, files, files.len() as int);
}

/// Closing one tab that is not the current one leaves the same document
/// current, at its new place.
pub proof fn lemma_close_other_keeps_current(files: Seq<OpenFile>, current: int, i: usize)
    requires
        0 <= current < files.len(),
        i < files.len(),
        i != current,
    ensures
        ({
            let s = survivors(CloseAction::Close(i), files, files.len() as int);
            let c = index_after_close(CloseAction::Close(i), files, current);
            0 <= c < s.len() && s[c] == files[current]
        }),
{
    let a = CloseAction::Close(i);
    let n = files.len() as int;
    lemma_survivors(a, files, n);
    lemma_removed_before_mono(a, files, 0, current);
    lemma_removed_before_mono(a, files, current + 1, n);
    assert(!is_removed(a, files, current));
    assert(removed_before(a, files, 0) == 0);
}

/// Closing the first tab while it is current, with more than one tab left,
/// makes the tab now first current.
pub proof fn lemma_close_first_selects_first(files: Seq<OpenFile>)
    requires
        survivors(CloseAction::Close(0), files, files.len() as int).len() > 1,
    ensures
        index_after_close(CloseAction::Close(0), files, 0) == 0,
{
}

/// Opening a path a second time adds no document: the documents stay as
/// they were, edits and unsaved flags included, and the one at that path
/// is current.
pub proof fn lemma_open_twice(
    v0: FilesView,
    v1: FilesView,
    v2: FilesView,
    path: Seq<char>,
    first: Seq<u8>,
    second: Seq<u8>,
    ok2: bool,
)
    requires
        open_post(v0, path, first, true, v1),
        open_post(v1, path, second, ok2, v2),
    ensures
        ok2,
        v2.files == v1.files,
        v2.current_index < v2.files.len(),
        v2.files[v2.current_index as int].path@ == path,
{
    if !v0.has_path(path) {
        let last = v1.files.len() - 1;
        assert(v1.files[last].path@ == path);
        assert(v1.has_path(path));
    } else {
        assert(v1.files[v1.current_index as int].path@ == path);
        assert(v1.has_path(path));
    }
}

/// The state of the open documents as contracts see it.
pub struct FilesView {
    pub files: Seq<OpenFile>,
    pub current_index: usize,
    pub current_index_changed: bool,
}

impl FilesView {
    /// The current index names a document, or is the "none" value exactly
    /// when no document is open; no two documents share a path.
    pub open spec fn wf(self) -> bool {
        &&& (self.files.len() == 0 && self.current_index == usize::MAX)
            || self.current_index < self.files.len()
        &&& unique_paths(self.files)
    }

    pub open spec fn has_path(self, path: Seq<char>) -> bool {
        exists|i: int| 0 <= i < self.files.len() && (#[trigger] self.files[i]).path@ == path
    }
}

/// What opening the file at `path`, whose bytes are `bytes`, does: an open
/// document with that path becomes current; else the file, when it decodes,
/// is added at the end and becomes current; else nothing changes.
pub open spec fn open_post(old: FilesView, path: Seq<char>, bytes: Seq<u8>, ok: bool, new: FilesView) -> bool {
    if old.has_path(path) {
        &&& ok
        &&& new.files == old.files
        &&& new.current_index < new.files.len()
        &&& new.files[new.current_index as int].path@ == path
        &&& new.current_index_changed
    } else if decodes(bytes) {
        &&& ok
        &&& new.files.len() == old.files.len() + 1
        &&& new.files.drop_last() == old.files
        &&& doc_from(new.files.last(), path, bytes)
        &&& new.current_index == old.files.len()
        &&& new.current_index_changed
    } else {
        !ok && new == old
    }
}

/// The open documents, in the order they were opened.
pub struct OpenFiles {
    files: Vec<OpenFile>,
    current_index: usize,
    current_index_changed: bool,
}

impl View for OpenFiles {
    type V = FilesView;

    closed spec fn view(&self) -> FilesView {
        FilesView {
            files: self.files@,
            current_index: self.current_index,
            current_index_changed: self.current_index_changed,
        }
    }
}

impl OpenFiles {
    pub fn new() -> (r: OpenFiles)
        ensures
            r@.wf(),
            r@.files.len() == 0,
            r@.current_index == usize::MAX,
            !r@.current_index_changed,
    {
        OpenFiles { files: Vec::new(), current_index: usize::MAX, current_index_changed: false }
    }

    fn set_current_index(&mut self, index: usize)
        ensures
            final(self)@ == (FilesView { current_index: index, current_index_changed: true, ..old(self)@ }),
    {
        self.current_index = index;
        self.current_index_changed = true;
    }

    /// Makes the document at `index` current.
    pub fn select(&mut self, index: usize)
        requires
            old(self)@.wf(),
            index < old(self)@.files.len(),
        ensures
            final(self)@.wf(),
            final(self)@ == (FilesView { current_index: index, current_index_changed: true, ..old(self)@ }),
    {
        self.set_current_index(index);
    }

    /// Whether the current index changed since the last call; clears the flag.
    pub fn get_and_reset_current_index_changed(&mut self) -> (r: bool)
        requires
            old(self)@.wf(),
        ensures
            final(self)@.wf(),
            r == old(self)@.current_index_changed,
            final(self)@ == (FilesView { current_index_changed: false, ..old(self)@ }),
    {
        let old = self.current_index_changed;
        self.current_index_changed = false;
        old
    }

    pub fn files(&self) -> (r: &Vec<OpenFile>)
        ensures
            r@ == self@.files,
    {
        &self.files
    }

    pub fn current_index(&self) -> (r: usize)
        ensures
            r == self@.current_index,
    {
        self.current_index
    }

    pub fn current_file(&self) -> (r: Option<&OpenFile>)
        ensures
            r is Some <==> self@.current_index < self@.files.len(),
            r matches Some(f) ==> *f == self@.files[self@.current_index as int],
    {
        if self.current_index >= self.files.len() {
            None
        } else {
            Some(&self.files[self.current_index])
        }
    }

    pub fn is_empty(&self) -> (r: bool)
        ensures
            r == (self@.files.len() == 0),
    {
        self.files.len() == 0
    }

    /// Whether the current document is the one at `path`.
    pub fn is_current_file(&self, path: &String) -> (r: bool)
        ensures
            r == (self@.current_index < self@.files.len() && self@.files[self@.current_index as int].path@ == path@),
    {
        match self.current_file() {
            Some(f) => f.path == *path,
            None => false,
        }
    }

    /// The place of the open document at `path`.
    pub fn index_of(&self, path: &String) -> (r: Option<usize>)
        ensures
            r is None <==> !self@.has_path(path@),
            r matches Some(i) ==> i < self@.files.len() && self@.files[i as int].path@ == path@,
    {
        let n = self.files.len();
        let mut i: usize = 0;
        while i < n
            invariant
                n == self@.files.len(),
                i <= n,
                forall|j: int| 0 <= j < i ==> (#[trigger] self@.files[j]).path@ != path@,
            decreases n - i,
        {
            if self.files[i].path == *path {
                return Some(i);
            }
            i = i + 1;
        }
        None
    }

    /// Opens the file at `path`, whose bytes are `bytes`: selects it when it
    /// is open already, else decodes it and adds it as the current document.
    pub fn open_file(&mut self, path: &String, bytes: &[u8]) -> (r: Result<(), DecodeError>)
        requires
            old(self)@.wf(),
            old(self)@.files.len() < usize::MAX,
        ensures
            final(self)@.wf(),
            open_post(old(self)@, path@, bytes@, r is Ok, final(self)@),
            old(self)@.has_path(path@) ==> {
                &&& r is Ok
                &&& final(self)@.files == old(self)@.files
                &&& final(self)@.current_index_changed
                &&& forall|j: int|
                    0 <= j < old(self)@.files.len() && (#[trigger] old(self)@.files[j]).path@ == path@
                        ==> final(self)@.current_index == j
            },
            r matches Err(e) ==> e.path@ == path@ && e.encoding@ == guessed_encoding(bytes@),
    {
        match self.index_of(path) {
            Some(i) => {
                self.set_current_index(i);
                Ok(())
            },
            None => {
                let f = OpenFile::new(path, bytes)?;
                let ghost before = self@;
                self.files.push(f);
                self.set_current_index(self.files.len() - 1);
                proof {
                    assert(self@.files.drop_last() =~= before.files);
                    assert forall|i: int, j: int| 0 <= i < j < self@.files.len() implies (#[trigger] self@.files[i]).path@ != (#[trigger] self@.files[j]).path@ by {
                        if j == self@.files.len() - 1 {
                            assert(before.files[i] == self@.files[i]);
                        } else {
                            assert(before.files[i] == self@.files[i]);
                            assert(before.files[j] == self@.files[j]);
                        }
                    }
                }
                Ok(())
            },
        }
    }

    /// Closes the tabs that `action` names, except those with unsaved
    /// edits, which stay open; returns the path of the first such tab, to be
    /// shown as a warning. The kept tabs keep their order and the current
    /// index follows `index_after_close`.
    pub fn close_files(&mut self, action: CloseAction) -> (warning: Option<String>)
        requires
            old(self)@.wf(),
            action_in_range(action, old(self)@.files.len() as int),
        ensures
            final(self)@.wf(),
            final(self)@.files == survivors(action, old(self)@.files, old(self)@.files.len() as int),
            final(self)@.current_index == index_after_close(action, old(self)@.files, old(self)@.current_index as int),
            final(self)@.current_index_changed,
            match first_unsaved(action, old(self)@.files, old(self)@.files.len() as int) {
                Some(k) => warning matches Some(p) && p@ == old(self)@.files[k].path@,
                None => warning is None,
            },
    {
        let ghost files0 = self@.files;
        let len = self.files.len();
        let cur = self.current_index;
        let mut taken: Vec<OpenFile> = Vec::new();
        std::mem::swap(&mut taken, &mut self.files);
        let mut kept: Vec<OpenFile> = Vec::new();
        let mut saved_index_list: Vec<usize> = Vec::new();
        let mut warning: Option<String> = None;
        let mut current_removed = false;
        let mut i: usize = 0;
        proof {
            lemma_first_unsaved_range(action, files0, len as int);
        }
        for f in it: taken.into_iter()
            invariant
                i == it.index(),
                it.seq() == files0,
                len == files0.len(),
                action_in_range(action, len as int),
                kept@ == survivors(action, files0, i as int),
                count_below(saved_index_list@, cur) == removed_before(action, files0, if cur < i { cur as int } else { i as int }),
                current_removed == (cur < i && is_removed(action, files0, cur as int)),
                match first_unsaved(action, files0, i as int) {
                    Some(k) => warning matches Some(p) && p@ == files0[k].path@,
                    None => warning is None,
                },
        {
            let selected = match action {
                CloseAction::Close(k) => i == k,
                CloseAction::CloseOthers(k) => i != k,
                CloseAction::CloseToRight(k) => i > k,
                CloseAction::CloseSaved => !f.changed,
                CloseAction::CloseAll => true,
            };
            proof {
                assert(f == files0[i as int]);
                assert(selected == is_selected(action, files0, i as int));
                lemma_count_below_push(saved_index_list@, i, cur);
                lemma_first_unsaved_range(action, files0, i as int);
                lemma_first_unsaved_range(action, files0, i + 1);
            }
            if selected && f.changed {
                if warning.is_none() {
                    warning = Some(f.path.clone());
                }
                kept.push(f);
            } else if selected {
                saved_index_list.push(i);
                if i == cur {
                    current_removed = true;
                }
            } else {
                kept.push(f);
            }
            i = i + 1;
        }
        self.files = kept;
        proof {
            lemma_survivors(action, files0, len as int);
            lemma_survivors_unique(action, files0);
            lemma_removed_before_mono(action, files0, 0, cur as int);
        }
        let new_len = self.files.len();
        let new_index = if new_len == 0 {
            usize::MAX
        } else if new_len == 1 || cur == 0 {
            0
        } else {
            proof {
                lemma_removed_before_mono(action, files0, cur as int, len as int);
                lemma_removed_before_mono(action, files0, cur + 1, len as int);
            }
            let pos = index_after_remove(cur, saved_index_list.as_slice());
            if current_removed {
                if pos == 0 {
                    0
                } else {
                    pos - 1
                }
            } else {
                pos
            }
        };
        self.set_current_index(new_index);
        warning
    }

    /// The documents keep no state that a command changes.
    pub fn handle(&mut self, _action: &crate::action::Action)
        ensures
            final(self)@ == old(self)@,
    {
    }

    /// Replaces the text of the current document after an edit and marks it
    /// changed; does nothing when no document is open.
    pub fn edit_current(&mut self, content: String)
        requires
            old(self)@.wf(),
        ensures
            final(self)@.wf(),
            final(self)@.current_index == old(self)@.current_index,
            final(self)@.current_index_changed == old(self)@.current_index_changed,
            final(self)@.files.len() == old(self)@.files.len(),
            old(self)@.files.len() == 0 ==> final(self)@.files == old(self)@.files,
            old(self)@.files.len() > 0 ==> {
                let c = old(self)@.current_index as int;
                let f = final(self)@.files[c];
                &&& f.content@ == content@
                &&& f.changed
                &&& f.path == old(self)@.files[c].path
                &&& f.encoding == old(self)@.files[c].encoding
                &&& f.line_ending == old(self)@.files[c].line_ending
                &&& f.cursor_range == old(self)@.files[c].cursor_range
                &&& forall|i: int| 0 <= i < final(self)@.files.len() && i != c ==> final(self)@.files[i] == old(self)@.files[i]
            },
    {
        if self.current_index < self.files.len() {
            let ghost before = self@;
            let i = self.current_index;
            let mut f = self.files.remove(i);
            f.content = content;
            f.changed = true;
            self.files.insert(i, f);
            proof {
                assert forall|a: int, b: int| 0 <= a < b < self@.files.len() implies (#[trigger] self@.files[a]).path@ != (#[trigger] self@.files[b]).path@ by {
                    assert(self@.files[a].path == before.files[a].path);
                    assert(self@.files[b].path == before.files[b].path);
                }
            }
        }
    }

    /// Records the cursor that the text widget reports for the current
    /// document; does nothing when no document is open.
    pub fn set_current_cursor(&mut self, range: Option<CursorRange>)
        requires
            old(self)@.wf(),
        ensures
            final(self)@.wf(),
            final(self)@.current_index == old(self)@.current_index,
            final(self)@.current_index_changed == old(self)@.current_index_changed,
            final(self)@.files.len() == old(self)@.files.len(),
            old(self)@.files.len() == 0 ==> final(self)@.files == old(self)@.files,
            old(self)@.files.len() > 0 ==> {
                let c = old(self)@.current_index as int;
                let f = final(self)@.files[c];
                let g = old(self)@.files[c];
                &&& f.cursor_range == range
                &&& f.content == g.content && f.changed == g.changed && f.path == g.path
                &&& f.encoding == g.encoding && f.line_ending == g.line_ending
                &&& forall|i: int| 0 <= i < final(self)@.files.len() && i != c ==> final(self)@.files[i] == old(self)@.files[i]
            },
    {
        if self.current_index < self.files.len() {
            let ghost before = self@;
            let i = self.current_index;
            let mut f = self.files.remove(i);
            f.cursor_range = range;
            self.files.insert(i, f);
            proof {
                assert forall|a: int, b: int| 0 <= a < b < self@.files.len() implies (#[trigger] self@.files[a]).path@ != (#[trigger] self@.files[b]).path@ by {
                    assert(self@.files[a].path == before.files[a].path);
                    assert(self@.files[b].path == before.files[b].path);
                }
            }
        }
    }

    /// Clears the unsaved flag of the document at `index` once its bytes
    /// have been written.
    pub fn mark_saved(&mut self, index: usize)
        requires
            old(self)@.wf(),
            index < old(self)@.files.len(),
        ensures
            final(self)@.wf(),
            final(self)@.current_index == old(self)@.current_index,
            final(self)@.current_index_changed == old(self)@.current_index_changed,
            final(self)@.files.len() == old(self)@.files.len(),
            !final(self)@.files[index as int].changed,
            final(self)@.files[index as int].content == old(self)@.files[index as int].content,
            final(self)@.files[index as int].path == old(self)@.files[index as int].path,
            final(self)@.files[index as int].encoding == old(self)@.files[index as int].encoding,
            forall|i: int| 0 <= i < final(self)@.files.len() && i != index ==> final(self)@.files[i] == old(self)@.files[i],
    {
        let ghost before = self@;
        let mut f = self.files.remove(index);
        f.changed = false;
        self.files.insert(index, f);
        proof {
            assert forall|a: int, b: int| 0 <= a < b < self@.files.len() implies (#[trigger] self@.files[a]).path@ != (#[trigger] self@.files[b]).path@ by {
                assert(self@.files[a].path == before.files[a].path);
                assert(self@.files[b].path == before.files[b].path);
            }
        }
    }
}

} // verus!
