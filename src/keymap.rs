//! Keyboard chords written as text (`Ctrl+Shift+O`), and the table that
//! binds them to commands.
use vstd::prelude::*;

use crate::action::{same_action, spec_action_name, Action};
use crate::bus::ActionBus;
use crate::strs::str_eq;

verus! {

/// How many key names the chord grammar knows.
pub const KEY_COUNT: usize = 73;

/// The key names of the chord grammar, one per key.
pub open spec fn key_name_at(i: int) -> Seq<char> {
    if i == 0 {
        "Down"@
    } else if i == 1 {
        "Left"@
    } else if i == 2 {
        "Right"@
    } else if i == 3 {
        "Up"@
    } else if i == 4 {
        "Escape"@
    } else if i == 5 {
        "Tab"@
    } else if i == 6 {
        "Backspace"@
    } else if i == 7 {
        "Enter"@
    } else if i == 8 {
        "Space"@
    } else if i == 9 {
        "Insert"@
    } else if i == 10 {
        "Delete"@
    } else if i == 11 {
        "Home"@
    } else if i == 12 {
        "End"@
    } else if i == 13 {
        "PageUp"@
    } else if i == 14 {
        "PageDown"@
    } else if i == 15 {
        "Minus"@
    } else if i == 16 {
        "Plus"@
    } else if i == 17 {
        "0"@
    } else if i == 18 {
        "1"@
    } else if i == 19 {
        "2"@
    } else if i == 20 {
        "3"@
    } else if i == 21 {
        "4"@
    } else if i == 22 {
        "5"@
    } else if i == 23 {
        "6"@
    } else if i == 24 {
        "7"@
    } else if i == 25 {
        "8"@
    } else if i == 26 {
        "9"@
    } else if i == 27 {
        "A"@
    } else if i == 28 {
        "B"@
    } else if i == 29 {
        "C"@
    } else if i == 30 {
        "D"@
    } else if i == 31 {
        "E"@
    } else if i == 32 {
        "F"@
    } else if i == 33 {
        "G"@
    } else if i == 34 {
        "H"@
    } else if i == 35 {
        "I"@
    } else if i == 36 {
        "J"@
    } else if i == 37 {
        "K"@
    } else if i == 38 {
        "L"@
    } else if i == 39 {
        "M"@
    } else if i == 40 {
        "N"@
    } else if i == 41 {
        "O"@
    } else if i == 42 {
        "P"@
    } else if i == 43 {
        "Q"@
    } else if i == 44 {
        "R"@
    } else if i == 45 {
        "S"@
    } else if i == 46 {
        "T"@
    } else if i == 47 {
        "U"@
    } else if i == 48 {
        "V"@
    } else if i == 49 {
        "W"@
    } else if i == 50 {
        "X"@
    } else if i == 51 {
        "Y"@
    } else if i == 52 {
        "Z"@
    } else if i == 53 {
        "F1"@
    } else if i == 54 {
        "F2"@
    } else if i == 55 {
        "F3"@
    } else if i == 56 {
        "F4"@
    } else if i == 57 {
        "F5"@
    } else if i == 58 {
        "F6"@
    } else if i == 59 {
        "F7"@
    } else if i == 60 {
        "F8"@
    } else if i == 61 {
        "F9"@
    } else if i == 62 {
        "F10"@
    } else if i == 63 {
        "F11"@
    } else if i == 64 {
        "F12"@
    } else if i == 65 {
        "F13"@
    } else if i == 66 {
        "F14"@
    } else if i == 67 {
        "F15"@
    } else if i == 68 {
        "F16"@
    } else if i == 69 {
        "F17"@
    } else if i == 70 {
        "F18"@
    } else if i == 71 {
        "F19"@
    } else if i == 72 {
        "F20"@
    } else {
        Seq::empty()
    }
}

pub open spec fn is_key_name(s: Seq<char>) -> bool {
    exists|i: int| 0 <= i < KEY_COUNT && key_name_at(i) == s
}

fn key_name_str(i: usize) -> (r: &'static str)
    requires
        i < KEY_COUNT,
    ensures
        r@ == key_name_at(i as int),
{
    match i {
        0 => "Down",
        1 => "Left",
        2 => "Right",
        3 => "Up",
        4 => "Escape",
        5 => "Tab",
        6 => "Backspace",
        7 => "Enter",
        8 => "Space",
        9 => "Insert",
        10 => "Delete",
        11 => "Home",
        12 => "End",
        13 => "PageUp",
        14 => "PageDown",
        15 => "Minus",
        16 => "Plus",
        17 => "0",
        18 => "1",
        19 => "2",
        20 => "3",
        21 => "4",
        22 => "5",
        23 => "6",
        24 => "7",
        25 => "8",
        26 => "9",
        27 => "A",
        28 => "B",
        29 => "C",
        30 => "D",
        31 => "E",
        32 => "F",
        33 => "G",
        34 => "H",
        35 => "I",
        36 => "J",
        37 => "K",
        38 => "L",
        39 => "M",
        40 => "N",
        41 => "O",
        42 => "P",
        43 => "Q",
        44 => "R",
        45 => "S",
        46 => "T",
        47 => "U",
        48 => "V",
        49 => "W",
        50 => "X",
        51 => "Y",
        52 => "Z",
        53 => "F1",
        54 => "F2",
        55 => "F3",
        56 => "F4",
        57 => "F5",
        58 => "F6",
        59 => "F7",
        60 => "F8",
        61 => "F9",
        62 => "F10",
        63 => "F11",
        64 => "F12",
        65 => "F13",
        66 => "F14",
        67 => "F15",
        68 => "F16",
        69 => "F17",
        70 => "F18",
        71 => "F19",
        72 => "F20",
        _ => "F20",
    }
}

/// A key, held as its name in the chord grammar.
#[derive(Debug, Clone, PartialEq, Eq, Hash)]
pub struct Key {
    name: String,
}

impl View for Key {
    type V = Seq<char>;

    closed spec fn view(&self) -> Seq<char> {
        self.name@
    }
}

impl Key {
    pub fn name(&self) -> (r: &str)
        ensures
            r@ == self@,
    {
        self.name.as_str()
    }

    /// A copy of the key.
    pub fn copied(&self) -> (r: Key)
        ensures
            r@ == self@,
    {
        Key { name: self.name.clone() }
    }
}

/// Why a chord could not be read or bound.
#[derive(Debug, Clone, PartialEq, Eq)]
pub enum KeyError {
    /// The last token names no key.
    UnknownKey(String),
    /// A token before the last names no modifier.
    UnknownModifier(String),
    /// The text has more than four tokens.
    BadShortcut(String),
    /// The chord is bound already; holds the chord and the bound command's name.
    Conflict { shortcut: String, action: String },
}

/// Reads a key name.
pub fn parse_key(key_name: &str) -> (r: Result<Key, KeyError>)
    ensures
        r is Ok <==> is_key_name(key_name@),
        r matches Ok(k) ==> k@ == key_name@,
        r matches Err(e) ==> e matches KeyError::UnknownKey(n) && n@ == key_name@,
{
    let mut i: usize = 0;
    while i < KEY_COUNT
        invariant
            i <= KEY_COUNT,
            forall|j: int| 0 <= j < i ==> key_name_at(j) != key_name@,
        decreases KEY_COUNT - i,
    {
        if str_eq(key_name, key_name_str(i)) {
            return Ok(Key { name: String::from_str(key_name) });
        }
        i = i + 1;
    }
    Err(KeyError::UnknownKey(String::from_str(key_name)))
}

/// The modifier keys held with a key.
#[derive(Debug, Clone, Copy, PartialEq, Eq, Hash, Default, Structural)]
pub struct Modifiers {
    pub alt: bool,
    pub ctrl: bool,
    pub shift: bool,
    /// The Mac Command key.
    pub mac_cmd: bool,
    /// Ctrl, or on a Mac the Command key.
    pub command: bool,
}

impl Modifiers {
    pub open spec fn spec_none() -> Modifiers {
        Modifiers { alt: false, ctrl: false, shift: false, mac_cmd: false, command: false }
    }

    pub fn none() -> (r: Modifiers)
        ensures
            r == Modifiers::spec_none(),
    {
        Modifiers { alt: false, ctrl: false, shift: false, mac_cmd: false, command: false }
    }

    pub open spec fn spec_union(self, o: Modifiers) -> Modifiers {
        Modifiers {
            alt: self.alt || o.alt,
            ctrl: self.ctrl || o.ctrl,
            shift: self.shift || o.shift,
            mac_cmd: self.mac_cmd || o.mac_cmd,
            command: self.command || o.command,
        }
    }

    /// The modifiers held in either set.
    pub fn union(self, o: Modifiers) -> (r: Modifiers)
        ensures
            r == self.spec_union(o),
    {
        Modifiers {
            alt: self.alt || o.alt,
            ctrl: self.ctrl || o.ctrl,
            shift: self.shift || o.shift,
            mac_cmd: self.mac_cmd || o.mac_cmd,
            command: self.command || o.command,
        }
    }
}

pub open spec fn ctrl_name() -> Seq<char> {
    seq!['C', 't', 'r', 'l']
}

pub open spec fn alt_name() -> Seq<char> {
    seq!['A', 'l', 't']
}

pub open spec fn shift_name() -> Seq<char> {
    seq!['S', 'h', 'i', 'f', 't']
}

pub open spec fn cmd_name() -> Seq<char> {
    seq!['C', 'm', 'd']
}

pub open spec fn option_name() -> Seq<char> {
    seq!['O', 'p', 't', 'i', 'o', 'n']
}

/// The modifier a token names: `Ctrl`, `Alt`, `Shift`, and `Cmd`, which is
/// the Command key on a Mac and Ctrl elsewhere; on a Mac also `Option`, the
/// Mac name of Alt, under which chords are written there.
pub open spec fn modifier_of(s: Seq<char>, is_mac: bool) -> Option<Modifiers> {
    let none = Modifiers::spec_none();
    if s == ctrl_name() {
        Some(Modifiers { ctrl: true, ..none })
    } else if s == alt_name() {
        Some(Modifiers { alt: true, ..none })
    } else if s == shift_name() {
        Some(Modifiers { shift: true, ..none })
    } else if s == cmd_name() {
        if is_mac {
            Some(Modifiers { mac_cmd: true, ..none })
        } else {
            Some(Modifiers { command: true, ..none })
        }
    } else if is_mac && s == option_name() {
        Some(Modifiers { alt: true, ..none })
    } else {
        None
    }
}

/// Reads a modifier name.
pub fn parse_modifier(modifier_name: &str, is_mac: bool) -> (r: Result<Modifiers, KeyError>)
    ensures
        match modifier_of(modifier_name@, is_mac) {
            Some(m) => r == Ok::<Modifiers, KeyError>(m),
            None => r matches Err(e) && e matches KeyError::UnknownModifier(n) && n@ == modifier_name@,
        },
{
    proof {
        reveal_strlit("Ctrl");
        reveal_strlit("Alt");
        reveal_strlit("Shift");
        reveal_strlit("Cmd");
        reveal_strlit("Option");
        assert("Option"@ =~= option_name());
        assert("Ctrl"@ =~= ctrl_name());
        assert("Alt"@ =~= alt_name());
        assert("Shift"@ =~= shift_name());
        assert("Cmd"@ =~= cmd_name());
    }
    let none = Modifiers::none();
    if str_eq(modifier_name, "Ctrl") {
        Ok(Modifiers { ctrl: true, ..none })
    } else if str_eq(modifier_name, "Alt") {
        Ok(Modifiers { alt: true, ..none })
    } else if str_eq(modifier_name, "Shift") {
        Ok(Modifiers { shift: true, ..none })
    } else if str_eq(modifier_name, "Cmd") {
        if is_mac {
            Ok(Modifiers { mac_cmd: true, ..none })
        } else {
            Ok(Modifiers { command: true, ..none })
        }
    } else if is_mac && str_eq(modifier_name, "Option") {
        Ok(Modifiers { alt: true, ..none })
    } else {
        Err(KeyError::UnknownModifier(String::from_str(modifier_name)))
    }
}

/// The tokens of a text cut at each `+`; a text without `+` is one token.
pub open spec fn split_plus(s: Seq<char>) -> Seq<Seq<char>>
    decreases s.len(),
{
    if s.len() == 0 {
        seq![Seq::empty()]
    } else {
        let r = split_plus(s.drop_last());
        if s.last() == '+' {
            r.push(Seq::empty())
        } else {
            r.update(r.len() - 1, r.last().push(s.last()))
        }
    }
}

proof fn lemma_split_len(s: Seq<char>)
    ensures
        split_plus(s).len() >= 1,
    decreases s.len(),
{
    if s.len() > 0 {
        lemma_split_len(s.drop_last());
    }
}

/// The tokens of a text, cut at each `+`.
fn split_tokens<'a>(text: &'a str) -> (r: Vec<&'a str>)
    ensures
        r@.len() == split_plus(text@).len(),
        forall|i: int| 0 <= i < r@.len() ==> (#[trigger] r@[i])@ == split_plus(text@)[i],
{
    let n = text.unicode_len();
    let mut tokens: Vec<&'a str> = Vec::new();
    let mut start: usize = 0;
    let mut i: usize = 0;
    assert(text@.subrange(0, 0) =~= Seq::<char>::empty());
    while i < n
        invariant
            n == text@.len(),
            start <= i <= n,
            split_plus(text@.subrange(0, i as int)).len() == tokens@.len() + 1,
            forall|k: int| 0 <= k < tokens@.len() ==> (#[trigger] tokens@[k])@ == split_plus(text@.subrange(0, i as int))[k],
            split_plus(text@.subrange(0, i as int)).last() == text@.subrange(start as int, i as int),
        decreases n - i,
    {
        proof {
            let p = text@.subrange(0, i + 1);
            assert(p.drop_last() =~= text@.subrange(0, i as int));
            assert(p.last() == text@[i as int]);
            assert(text@.subrange(start as int, i + 1) =~= text@.subrange(start as int, i as int).push(text@[i as int]));
            assert(text@.subrange(i + 1, i + 1) =~= Seq::<char>::empty());
        }
        if text.get_char(i) == '+' {
            tokens.push(text.substring_char(start, i));
            start = i + 1;
        }
        i = i + 1;
    }
    tokens.push(text.substring_char(start, n));
    assert(text@.subrange(0, n as int) =~= text@);
    tokens
}

/// The modifiers named by all of `toks`, or `None` when one names none.
pub open spec fn mods_of(toks: Seq<Seq<char>>, is_mac: bool) -> Option<Modifiers>
    decreases toks.len(),
{
    if toks.len() == 0 {
        Some(Modifiers::spec_none())
    } else {
        match (mods_of(toks.drop_last(), is_mac), modifier_of(toks.last(), is_mac)) {
            (Some(m), Some(x)) => Some(m.spec_union(x)),
            _ => None,
        }
    }
}

/// The first of `toks` that names no modifier.
pub open spec fn first_bad_modifier(toks: Seq<Seq<char>>, is_mac: bool) -> Option<int>
    decreases toks.len(),
{
    if toks.len() == 0 {
        None
    } else {
        match first_bad_modifier(toks.drop_last(), is_mac) {
            Some(i) => Some(i),
            None => if modifier_of(toks.last(), is_mac) is None {
                Some(toks.len() - 1)
            } else {
                None
            },
        }
    }
}

proof fn lemma_mods_of_bad(toks: Seq<Seq<char>>, is_mac: bool)
    ensures
        (mods_of(toks, is_mac) is None) <==> (first_bad_modifier(toks, is_mac) is Some),
        first_bad_modifier(toks, is_mac) matches Some(i) ==> 0 <= i < toks.len() && modifier_of(toks[i], is_mac) is None,
    decreases toks.len(),
{
    if toks.len() > 0 {
        lemma_mods_of_bad(toks.drop_last(), is_mac);
    }
}

/// A chord as contracts see it.
pub struct ChordView {
    pub modifiers: Modifiers,
    pub key: Seq<char>,
}

/// What a chord text reads as: up to four tokens cut at `+`, the last a key
/// name and those before it modifier names.
pub open spec fn spec_parse_shortcut(s: Seq<char>, is_mac: bool) -> Option<ChordView> {
    let t = split_plus(s);
    let n = t.len();
    if n > 4 || !is_key_name(t[n - 1]) {
        None
    } else {
        match mods_of(t.subrange(0, n - 1), is_mac) {
            Some(m) => Some(ChordView { modifiers: m, key: t[n - 1] }),
            None => None,
        }
    }
}

/// A key with the modifiers held with it.
#[derive(Debug, Clone, PartialEq, Eq, Hash)]
pub struct KeyChord {
    pub modifiers: Modifiers,
    pub key: Key,
}

impl View for KeyChord {
    type V = ChordView;

    open spec fn view(&self) -> ChordView {
        ChordView { modifiers: self.modifiers, key: self.key@ }
    }
}

impl KeyChord {
    pub fn new(modifiers: Modifiers, key: Key) -> (r: KeyChord)
        ensures
            r.modifiers == modifiers,
            r.key@ == key@,
    {
        KeyChord { modifiers, key }
    }

    pub fn copied(&self) -> (r: KeyChord)
        ensures
            r@ == self@,
    {
        KeyChord { modifiers: self.modifiers, key: self.key.copied() }
    }

    /// Whether both chords hold the same key and modifiers.
    pub fn same(&self, o: &KeyChord) -> (r: bool)
        ensures
            r == (self@ == o@),
    {
        let r = self.modifiers == o.modifiers && str_eq(self.key.name(), o.key.name());
        proof {
            if r {
                assert(self@ == o@);
            }
        }
        r
    }
}

/// Reads a chord text such as `Ctrl+Shift+O`.
pub fn parse_shortcut(key_name: &str, is_mac: bool) -> (r: Result<KeyChord, KeyError>)
    ensures
        match spec_parse_shortcut(key_name@, is_mac) {
            Some(c) => r matches Ok(k) && k@ == c,
            None => r is Err,
        },
        r matches Err(e) ==> ({
            let t = split_plus(key_name@);
            let n = t.len();
            if n > 4 {
                e matches KeyError::BadShortcut(x) && x@ == key_name@
            } else if !is_key_name(t[n - 1]) {
                e matches KeyError::UnknownKey(x) && x@ == t[n - 1]
            } else {
                first_bad_modifier(t.subrange(0, n - 1), is_mac) matches Some(b)
                    && e matches KeyError::UnknownModifier(x) && x@ == t[b]
            }
        }),
{
    let tokens = split_tokens(key_name);
    let len = tokens.len();
    proof {
        lemma_split_len(key_name@);
    }
    if len > 4 {
        return Err(KeyError::BadShortcut(String::from_str(key_name)));
    }
    let key = match parse_key(tokens[len - 1]) {
        Ok(k) => k,
        Err(e) => {
            return Err(e);
        },
    };
    let ghost t = split_plus(key_name@);
    assert(tokens@[len - 1]@ == t[len - 1]);
    let mut modifiers = Modifiers::none();
    let mut i: usize = 0;
    while i < len - 1
        invariant
            1 <= len <= 4,
            t == split_plus(key_name@),
            t.len() == len,
            tokens@.len() == len,
            forall|k: int| 0 <= k < len ==> (#[trigger] tokens@[k])@ == t[k],
            is_key_name(t[len - 1]),
            key@ == t[len - 1],
            i <= len - 1,
            mods_of(t.subrange(0, i as int), is_mac) == Some(modifiers),
            first_bad_modifier(t.subrange(0, i as int), is_mac) is None,
        decreases len - 1 - i,
    {
        proof {
            assert(t.subrange(0, i + 1).drop_last() =~= t.subrange(0, i as int));
            assert(t.subrange(0, i + 1).last() == t[i as int]);
        }
        match parse_modifier(tokens[i], is_mac) {
            Ok(m) => {
                modifiers = modifiers.union(m);
            },
            Err(e) => {
                proof {
                    assert(first_bad_modifier(t.subrange(0, i + 1), is_mac) == Some(i as int));
                    lemma_first_bad_prefix(t.subrange(0, len - 1), i + 1, is_mac);
                    assert(t.subrange(0, len - 1).subrange(0, i + 1) =~= t.subrange(0, i + 1));
                    lemma_mods_of_bad(t.subrange(0, len - 1), is_mac);
                }
                return Err(e);
            },
        }
        i = i + 1;
    }
    Ok(KeyChord { modifiers, key })
}

/// `[name]` when `on`, else nothing.
pub open spec fn name_if(on: bool, name: Seq<char>) -> Seq<Seq<char>> {
    if on {
        seq![name]
    } else {
        Seq::empty()
    }
}

/// The names of the held modifiers, in the order egui writes them: Ctrl
/// (also for `command`), Alt, Shift; on a Mac Ctrl, Shift, Option, Cmd
/// (also for `command`).
pub open spec fn modifier_names_of(m: Modifiers, is_mac: bool) -> Seq<Seq<char>> {
    if is_mac {
        name_if(m.ctrl, ctrl_name()) + name_if(m.shift, shift_name()) + name_if(m.alt, option_name())
            + name_if(m.mac_cmd || m.command, cmd_name())
    } else {
        name_if(m.ctrl || m.command, ctrl_name()) + name_if(m.alt, alt_name()) + name_if(m.shift, shift_name())
    }
}

/// The tokens joined with `+` between them.
pub open spec fn join_plus(t: Seq<Seq<char>>) -> Seq<char>
    decreases t.len(),
{
    if t.len() == 0 {
        Seq::empty()
    } else if t.len() == 1 {
        t[0]
    } else {
        join_plus(t.drop_last()) + seq!['+'] + t.last()
    }
}

/// The text of a chord: its modifiers' names, then its key, joined by `+`.
pub open spec fn chord_text(c: ChordView, is_mac: bool) -> Seq<char> {
    join_plus(modifier_names_of(c.modifiers, is_mac).push(c.key))
}

/// Relies on egui's `ModifierNames::NAMES.format`: the names of the held
/// modifiers joined with `+`, Ctrl (for `ctrl` or `command`), Alt, Shift in
/// that order, or on a Mac Ctrl, Shift, Option (for `alt`), Cmd (for
/// `mac_cmd` or `command`).
#[verifier::external_body]
fn modifier_text(m: Modifiers, is_mac: bool) -> (r: String)
    ensures
        r@ == join_plus(modifier_names_of(m, is_mac)),
{
    let m = egui::Modifiers { alt: m.alt, ctrl: m.ctrl, shift: m.shift, mac_cmd: m.mac_cmd, command: m.command };
    egui::ModifierNames::NAMES.format(&m, is_mac)
}

proof fn lemma_join_nonempty(t: Seq<Seq<char>>)
    requires
        t.len() > 0,
        t.last().len() > 0,
    ensures
        join_plus(t).len() > 0,
{
}

proof fn lemma_names_nonempty(m: Modifiers, is_mac: bool)
    ensures
        forall|i: int| 0 <= i < modifier_names_of(m, is_mac).len() ==> (#[trigger] modifier_names_of(m, is_mac)[i]).len() > 0,
        modifier_names_of(m, is_mac).len() <= 3 || is_mac,
        modifier_names_of(m, is_mac).len() <= 4,
{
    let n = modifier_names_of(m, is_mac);
    assert forall|i: int| 0 <= i < n.len() implies (#[trigger] n[i]).len() > 0 by {
        assert(n[i] == ctrl_name() || n[i] == alt_name() || n[i] == shift_name() || n[i] == cmd_name() || n[i] == option_name());
    }
}

/// Writes a chord as text, the way menus show it.
pub fn format_key(key: &KeyChord, is_mac: bool) -> (r: String)
    ensures
        r@ == chord_text(key@, is_mac),
{
    let mut s = modifier_text(key.modifiers, is_mac);
    let ghost names = modifier_names_of(key.modifiers, is_mac);
    proof {
        reveal_strlit("+");
        assert("+"@ =~= seq!['+']);
        lemma_names_nonempty(key.modifiers, is_mac);
        if names.len() > 0 {
            lemma_join_nonempty(names);
        }
        assert(names.push(key.key@).drop_last() =~= names);
    }
    if s.as_str().unicode_len() > 0 {
        s.append("+");
    }
    s.append(key.key.name());
    proof {
        if names.len() == 0 {
            assert(names.push(key.key@) =~= seq![key.key@]);
        }
    }
    s
}

pub open spec fn no_plus(s: Seq<char>) -> bool {
    forall|i: int| 0 <= i < s.len() ==> s[i] != '+'
}

proof fn lemma_split_tokens_no_plus(s: Seq<char>)
    ensures
        forall|i: int| 0 <= i < split_plus(s).len() ==> no_plus(#[trigger] split_plus(s)[i]),
    decreases s.len(),
{
    lemma_split_len(s);
    if s.len() > 0 {
        lemma_split_tokens_no_plus(s.drop_last());
        lemma_split_len(s.drop_last());
        let r = split_plus(s.drop_last());
        assert forall|i: int| 0 <= i < split_plus(s).len() implies no_plus(#[trigger] split_plus(s)[i]) by {
            if s.last() != '+' && i == r.len() - 1 {
                assert(no_plus(r[i]));
                assert(split_plus(s)[i] =~= r[i].push(s.last()));
            }
        }
    }
}

proof fn lemma_split_single(b: Seq<char>)
    requires
        no_plus(b),
    ensures
        split_plus(b) == seq![b],
    decreases b.len(),
{
    if b.len() == 0 {
        assert(b =~= Seq::<char>::empty());
        assert(split_plus(b) =~= seq![b]);
    } else {
        assert(no_plus(b.drop_last())) by {
            assert forall|i: int| 0 <= i < b.drop_last().len() implies b.drop_last()[i] != '+' by {
                assert(b.drop_last()[i] == b[i]);
            }
        }
        lemma_split_single(b.drop_last());
        assert(b[b.len() - 1] != '+');
        assert(b.drop_last().push(b.last()) =~= b);
        assert(split_plus(b) =~= seq![b]);
    }
}

proof fn lemma_split_append(a: Seq<char>, b: Seq<char>)
    requires
        no_plus(b),
    ensures
        split_plus(a + seq!['+'] + b) == split_plus(a).push(b),
    decreases b.len(),
{
    let s = a + seq!['+'] + b;
    if b.len() == 0 {
        assert(b =~= Seq::<char>::empty());
        assert(s.drop_last() =~= a);
        assert(s.last() == '+');
        assert(split_plus(s) =~= split_plus(a).push(b));
    } else {
        assert(no_plus(b.drop_last())) by {
            assert forall|i: int| 0 <= i < b.drop_last().len() implies b.drop_last()[i] != '+' by {
                assert(b.drop_last()[i] == b[i]);
            }
        }
        assert(b[b.len() - 1] != '+');
        lemma_split_append(a, b.drop_last());
        assert(s.drop_last() =~= a + seq!['+'] + b.drop_last());
        assert(s.last() == b.last());
        assert(b.drop_last().push(b.last()) =~= b);
        assert(split_plus(s) =~= split_plus(a).push(b));
    }
}

proof fn lemma_split_join(t: Seq<Seq<char>>)
    requires
        t.len() >= 1,
        forall|i: int| 0 <= i < t.len() ==> no_plus(#[trigger] t[i]),
    ensures
        split_plus(join_plus(t)) == t,
    decreases t.len(),
{
    if t.len() == 1 {
        lemma_split_single(t[0]);
        assert(seq![t[0]] =~= t);
    } else {
        let d = t.drop_last();
        assert forall|i: int| 0 <= i < d.len() implies no_plus(#[trigger] d[i]) by {
            assert(d[i] == t[i]);
        }
        lemma_split_join(d);
        assert(no_plus(t[t.len() - 1]));
        lemma_split_append(join_plus(d), t.last());
        assert(d.push(t.last()) =~= t);
    }
}

proof fn lemma_mods_of_push(t: Seq<Seq<char>>, x: Seq<char>, is_mac: bool)
    ensures
        mods_of(t.push(x), is_mac) == (match (mods_of(t, is_mac), modifier_of(x, is_mac)) {
            (Some(m), Some(y)) => Some(m.spec_union(y)),
            _ => None::<Modifiers>,
        }),
{
    assert(t.push(x).drop_last() =~= t);
}

proof fn lemma_mods_of_name_if(t: Seq<Seq<char>>, on: bool, x: Seq<char>, is_mac: bool)
    ensures
        mods_of(t + name_if(on, x), is_mac) == (if on {
            match (mods_of(t, is_mac), modifier_of(x, is_mac)) {
                (Some(m), Some(y)) => Some(m.spec_union(y)),
                _ => None::<Modifiers>,
            }
        } else {
            mods_of(t, is_mac)
        }),
{
    if on {
        assert(t + name_if(on, x) =~= t.push(x));
        lemma_mods_of_push(t, x, is_mac);
    } else {
        assert(t + name_if(on, x) =~= t);
    }
}

/// The modifiers a text names hold no Ctrl-or-Command flag on a Mac and no
/// Mac Command flag elsewhere.
proof fn lemma_mods_of_platform(t: Seq<Seq<char>>, is_mac: bool)
    ensures
        mods_of(t, is_mac) matches Some(m) ==> (is_mac ==> !m.command) && (!is_mac ==> !m.mac_cmd),
    decreases t.len(),
{
    if t.len() > 0 {
        lemma_mods_of_platform(t.drop_last(), is_mac);
    }
}

/// A set of modifiers as the platform writes it back: off a Mac `Cmd`
/// (the `command` flag) is Ctrl.
pub open spec fn normalized(m: Modifiers, is_mac: bool) -> Modifiers {
    if is_mac {
        m
    } else {
        Modifiers { ctrl: m.ctrl || m.command, command: false, ..m }
    }
}

/// Two sets of modifiers hold the same keys on the platform: the same
/// flags, where off a Mac `command` and `ctrl` both stand for Ctrl.
pub open spec fn same_modifier_set(a: Modifiers, b: Modifiers, is_mac: bool) -> bool {
    normalized(a, is_mac) == normalized(b, is_mac)
}

/// Reading back the names of a set of modifiers that a text can name gives
/// the set as the platform writes it.
proof fn lemma_mods_of_names(m: Modifiers, is_mac: bool)
    requires
        is_mac ==> !m.command,
        !is_mac ==> !m.mac_cmd,
    ensures
        mods_of(modifier_names_of(m, is_mac), is_mac) == Some(normalized(m, is_mac)),
{
    let e = Seq::<Seq<char>>::empty();
    assert(mods_of(e, is_mac) == Some(Modifiers::spec_none()));
    if is_mac {
        let n1 = e + name_if(m.ctrl, ctrl_name());
        let n2 = n1 + name_if(m.shift, shift_name());
        let n3 = n2 + name_if(m.alt, option_name());
        let n4 = n3 + name_if(m.mac_cmd || m.command, cmd_name());
        lemma_mods_of_name_if(e, m.ctrl, ctrl_name(), is_mac);
        lemma_mods_of_name_if(n1, m.shift, shift_name(), is_mac);
        lemma_mods_of_name_if(n2, m.alt, option_name(), is_mac);
        lemma_mods_of_name_if(n3, m.mac_cmd || m.command, cmd_name(), is_mac);
        assert(e + name_if(m.ctrl, ctrl_name()) =~= name_if(m.ctrl, ctrl_name()));
        assert(n4 =~= modifier_names_of(m, is_mac));
    } else {
        let n1 = e + name_if(m.ctrl || m.command, ctrl_name());
        let n2 = n1 + name_if(m.alt, alt_name());
        let n3 = n2 + name_if(m.shift, shift_name());
        lemma_mods_of_name_if(e, m.ctrl || m.command, ctrl_name(), is_mac);
        lemma_mods_of_name_if(n1, m.alt, alt_name(), is_mac);
        lemma_mods_of_name_if(n2, m.shift, shift_name(), is_mac);
        assert(e + name_if(m.ctrl || m.command, ctrl_name()) =~= name_if(m.ctrl || m.command, ctrl_name()));
        assert(n3 =~= modifier_names_of(m, is_mac));
    }
}

/// How many names the platform writes for a set of modifiers.
pub open spec fn names_count(m: Modifiers, is_mac: bool) -> int {
    if is_mac {
        (if m.ctrl { 1int } else { 0int }) + (if m.shift { 1int } else { 0int }) + (if m.alt { 1int } else { 0int })
            + (if m.mac_cmd || m.command { 1int } else { 0int })
    } else {
        (if m.ctrl || m.command { 1int } else { 0int }) + (if m.alt { 1int } else { 0int }) + (if m.shift { 1int } else { 0int })
    }
}

proof fn lemma_names_count(m: Modifiers, is_mac: bool)
    ensures
        modifier_names_of(m, is_mac).len() == names_count(m, is_mac),
{
}

/// A set of modifiers read from `k` tokens gets at most `k` names back.
proof fn lemma_names_bound(t: Seq<Seq<char>>, is_mac: bool)
    ensures
        mods_of(t, is_mac) matches Some(m) ==> names_count(m, is_mac) <= t.len(),
    decreases t.len(),
{
    if t.len() > 0 {
        lemma_names_bound(t.drop_last(), is_mac);
    }
}

/// Reading a chord text, writing the chord back as text and reading that
/// gives the same chord: the same key and the same modifiers, whatever order
/// the modifiers came in. On a Mac the modifier flags are the very same; off
/// a Mac `Cmd`, which is Ctrl there, comes back as the `ctrl` flag.
pub proof fn lemma_shortcut_round_trip(s: Seq<char>, is_mac: bool)
    requires
        spec_parse_shortcut(s, is_mac) is Some,
    ensures
        spec_parse_shortcut(s, is_mac) matches Some(c) && spec_parse_shortcut(chord_text(c, is_mac), is_mac) matches Some(d)
            && d.key == c.key && same_modifier_set(d.modifiers, c.modifiers, is_mac)
            && d.modifiers == normalized(c.modifiers, is_mac),
        is_mac ==> (spec_parse_shortcut(s, is_mac) matches Some(c) && spec_parse_shortcut(chord_text(c, is_mac), is_mac)
            == Some(c)),
{
    let c = spec_parse_shortcut(s, is_mac)->0;
    let t = split_plus(s);
    let n = t.len();
    lemma_split_len(s);
    lemma_split_tokens_no_plus(s);
    lemma_mods_of_platform(t.subrange(0, n - 1), is_mac);
    lemma_names_bound(t.subrange(0, n - 1), is_mac);
    assert(no_plus(c.key));
    let names = modifier_names_of(c.modifiers, is_mac);
    lemma_names_nonempty(c.modifiers, is_mac);
    lemma_names_count(c.modifiers, is_mac);
    let u = names.push(c.key);
    assert forall|i: int| 0 <= i < u.len() implies no_plus(#[trigger] u[i]) by {
        if i < names.len() {
            assert(names[i] == ctrl_name() || names[i] == alt_name() || names[i] == shift_name() || names[i] == cmd_name() || names[i] == option_name());
        }
    }
    lemma_split_join(u);
    lemma_mods_of_names(c.modifiers, is_mac);
    assert(u.subrange(0, u.len() - 1) =~= names);
    assert(u[u.len() - 1] == c.key);
}

/// Whether some token of `s` names a modifier with a flag that `f` picks.
pub open spec fn named_flag(s: Set<Seq<char>>, is_mac: bool, f: spec_fn(Modifiers) -> bool) -> bool {
    exists|x: Seq<char>| s.contains(x) && (modifier_of(x, is_mac) matches Some(y) && f(y))
}

/// The modifiers that a set of tokens names, when each names one.
pub open spec fn mods_of_set(s: Set<Seq<char>>, is_mac: bool) -> Option<Modifiers> {
    if forall|x: Seq<char>| s.contains(x) ==> modifier_of(x, is_mac) is Some {
        Some(
            Modifiers {
                alt: named_flag(s, is_mac, |m: Modifiers| m.alt),
                ctrl: named_flag(s, is_mac, |m: Modifiers| m.ctrl),
                shift: named_flag(s, is_mac, |m: Modifiers| m.shift),
                mac_cmd: named_flag(s, is_mac, |m: Modifiers| m.mac_cmd),
                command: named_flag(s, is_mac, |m: Modifiers| m.command),
            },
        )
    } else {
        None
    }
}

proof fn lemma_named_flag_insert(s: Set<Seq<char>>, x: Seq<char>, is_mac: bool, f: spec_fn(Modifiers) -> bool)
    ensures
        named_flag(s.insert(x), is_mac, f) == (named_flag(s, is_mac, f) || (modifier_of(x, is_mac) matches Some(y)
            && f(y))),
{
    if named_flag(s.insert(x), is_mac, f) {
        let w = choose|w: Seq<char>| s.insert(x).contains(w) && (modifier_of(w, is_mac) matches Some(y) && f(y));
        if w != x {
            assert(s.contains(w));
        }
    }
    if named_flag(s, is_mac, f) {
        let w = choose|w: Seq<char>| s.contains(w) && (modifier_of(w, is_mac) matches Some(y) && f(y));
        assert(s.insert(x).contains(w));
    }
    if modifier_of(x, is_mac) matches Some(y) && f(y) {
        assert(s.insert(x).contains(x));
    }
}

/// The modifiers read from tokens depend on the set of tokens only, not on
/// their order or repetition.
proof fn lemma_mods_of_set(t: Seq<Seq<char>>, is_mac: bool)
    ensures
        mods_of(t, is_mac) == mods_of_set(t.to_set(), is_mac),
    decreases t.len(),
{
    if t.len() == 0 {
        assert(t.to_set() =~= Set::<Seq<char>>::empty());
        let s = t.to_set();
        assert(!named_flag(s, is_mac, |m: Modifiers| m.alt));
        assert(!named_flag(s, is_mac, |m: Modifiers| m.ctrl));
        assert(!named_flag(s, is_mac, |m: Modifiers| m.shift));
        assert(!named_flag(s, is_mac, |m: Modifiers| m.mac_cmd));
        assert(!named_flag(s, is_mac, |m: Modifiers| m.command));
    } else {
        let d = t.drop_last();
        let x = t.last();
        lemma_mods_of_set(d, is_mac);
        assert(t =~= d.push(x));
        assert(t.to_set() =~= d.to_set().insert(x)) by {
            assert forall|w: Seq<char>| t.to_set().contains(w) <==> d.to_set().insert(x).contains(w) by {
                if t.contains(w) {
                    let i = choose|i: int| 0 <= i < t.len() && t[i] == w;
                    if i < d.len() {
                        assert(d[i] == w);
                    }
                }
                if d.contains(w) {
                    let i = choose|i: int| 0 <= i < d.len() && d[i] == w;
                    assert(t[i] == w);
                }
                if w == x {
                    assert(t[t.len() - 1] == w);
                }
            }
        }
        let s0 = d.to_set();
        lemma_named_flag_insert(s0, x, is_mac, |m: Modifiers| m.alt);
        lemma_named_flag_insert(s0, x, is_mac, |m: Modifiers| m.ctrl);
        lemma_named_flag_insert(s0, x, is_mac, |m: Modifiers| m.shift);
        lemma_named_flag_insert(s0, x, is_mac, |m: Modifiers| m.mac_cmd);
        lemma_named_flag_insert(s0, x, is_mac, |m: Modifiers| m.command);
        let all0 = forall|w: Seq<char>| s0.contains(w) ==> modifier_of(w, is_mac) is Some;
        let all1 = forall|w: Seq<char>| s0.insert(x).contains(w) ==> modifier_of(w, is_mac) is Some;
        if all1 {
            assert forall|w: Seq<char>| s0.contains(w) implies modifier_of(w, is_mac) is Some by {
                assert(s0.insert(x).contains(w));
            }
            assert(s0.insert(x).contains(x));
        }
        if all0 && modifier_of(x, is_mac) is Some {
            assert forall|w: Seq<char>| s0.insert(x).contains(w) implies modifier_of(w, is_mac) is Some by {
                if w != x {
                    assert(s0.contains(w));
                }
            }
        }
    }
}

/// The order of the modifier tokens does not matter: two chord texts with
/// the same key token and the same modifier tokens, in any order (a token
/// may repeat), read as the same chord.
pub proof fn lemma_modifier_order(s1: Seq<char>, s2: Seq<char>, is_mac: bool)
    requires
        split_plus(s1).len() <= 4,
        split_plus(s2).len() <= 4,
        split_plus(s1).last() == split_plus(s2).last(),
        split_plus(s1).drop_last().to_set() == split_plus(s2).drop_last().to_set(),
    ensures
        spec_parse_shortcut(s1, is_mac) == spec_parse_shortcut(s2, is_mac),
{
    let t1 = split_plus(s1);
    let t2 = split_plus(s2);
    lemma_split_len(s1);
    lemma_split_len(s2);
    assert(t1.subrange(0, t1.len() - 1) =~= t1.drop_last());
    assert(t2.subrange(0, t2.len() - 1) =~= t2.drop_last());
    lemma_mods_of_set(t1.drop_last(), is_mac);
    lemma_mods_of_set(t2.drop_last(), is_mac);
}

/// How many bindings the default table holds.
pub const DEFAULT_COUNT: usize = 16;

/// The chord texts of the default bindings.
pub open spec fn default_text(i: int) -> Seq<char> {
    if i == 0 {
        "Alt+Enter"@
    } else if i == 1 {
        "F11"@
    } else if i == 2 {
        "Alt+Shift+Enter"@
    } else if i == 3 {
        "Ctrl+Minus"@
    } else if i == 4 {
        "Ctrl+Plus"@
    } else if i == 5 {
        "Ctrl+0"@
    } else if i == 6 {
        "F12"@
    } else if i == 7 {
        "Alt+F12"@
    } else if i == 8 {
        "Ctrl+F12"@
    } else if i == 9 {
        "Ctrl+Shift+Q"@
    } else if i == 10 {
        "Ctrl+Shift+O"@
    } else if i == 11 {
        "Ctrl+Shift+S"@
    } else if i == 12 {
        "Alt+1"@
    } else if i == 13 {
        "Alt+3"@
    } else if i == 14 {
        "Alt+4"@
    } else if i == 15 {
        "Alt+5"@
    } else {
        Seq::empty()
    }
}

/// The commands of the default bindings.
pub open spec fn default_action(i: int) -> Action {
    if i == 0 {
        Action::ToggleFullScreen
    } else if i == 1 {
        Action::ToggleFullScreen
    } else if i == 2 {
        Action::ToggleDecorations
    } else if i == 3 {
        Action::ZoomOut
    } else if i == 4 {
        Action::ZoomIn
    } else if i == 5 {
        Action::ZoomReset
    } else if i == 6 {
        Action::OpenDebugWindow
    } else if i == 7 {
        Action::OpenPuffinViewer
    } else if i == 8 {
        Action::OpenAboutWindow
    } else if i == 9 {
        Action::ExitApp
    } else if i == 10 {
        Action::OpenFolder
    } else if i == 11 {
        Action::OpenSettingWindow
    } else if i == 12 {
        Action::ToggleExplorer
    } else if i == 13 {
        Action::ToggleTerminal
    } else if i == 14 {
        Action::ToggleStatusBar
    } else if i == 15 {
        Action::ToggleToolBar
    } else {
        Action::NoOp
    }
}

fn default_binding(i: usize) -> (r: (&'static str, Action))
    requires
        i < DEFAULT_COUNT,
    ensures
        r.0@ == default_text(i as int),
        r.1 == default_action(i as int),
{
    match i {
        0 => ("Alt+Enter", Action::ToggleFullScreen),
        1 => ("F11", Action::ToggleFullScreen),
        2 => ("Alt+Shift+Enter", Action::ToggleDecorations),
        3 => ("Ctrl+Minus", Action::ZoomOut),
        4 => ("Ctrl+Plus", Action::ZoomIn),
        5 => ("Ctrl+0", Action::ZoomReset),
        6 => ("F12", Action::OpenDebugWindow),
        7 => ("Alt+F12", Action::OpenPuffinViewer),
        8 => ("Ctrl+F12", Action::OpenAboutWindow),
        9 => ("Ctrl+Shift+Q", Action::ExitApp),
        10 => ("Ctrl+Shift+O", Action::OpenFolder),
        11 => ("Ctrl+Shift+S", Action::OpenSettingWindow),
        12 => ("Alt+1", Action::ToggleExplorer),
        13 => ("Alt+3", Action::ToggleTerminal),
        14 => ("Alt+4", Action::ToggleStatusBar),
        15 => ("Alt+5", Action::ToggleToolBar),
        _ => ("Alt+5", Action::ToggleToolBar),
    }
}

/// The bindings as contracts see them: chords and commands, in the order
/// they were added.
pub open spec fn entries_of(map: Seq<(KeyChord, Action)>) -> Seq<(ChordView, Action)> {
    map.map_values(|e: (KeyChord, Action)| (e.0@, e.1))
}

/// Whether some binding holds the chord `c`.
pub open spec fn is_bound(entries: Seq<(ChordView, Action)>, c: ChordView) -> bool {
    exists|i: int| 0 <= i < entries.len() && (#[trigger] entries[i]).0 == c
}

/// No two bindings hold the same chord.
pub open spec fn unique_chords(entries: Seq<(ChordView, Action)>) -> bool {
    forall|i: int, j: int| 0 <= i < j < entries.len() ==> (#[trigger] entries[i]).0 != (#[trigger] entries[j]).0
}

/// What binding `c` to `a` does: refused, changing nothing, when `c` is
/// bound; else added at the end.
pub open spec fn insert_post(
    old: Seq<(ChordView, Action)>,
    c: ChordView,
    a: Action,
    ok: bool,
    new: Seq<(ChordView, Action)>,
) -> bool {
    if is_bound(old, c) {
        !ok && new == old
    } else {
        ok && new == old.push((c, a))
    }
}

/// The bindings after adding the default table to `entries`, up to the
/// `k`-th default; `None` when a default text does not read or its chord
/// is bound already.
pub open spec fn with_defaults(entries: Seq<(ChordView, Action)>, k: int, is_mac: bool) -> Option<Seq<(ChordView, Action)>>
    decreases k,
{
    if k <= 0 {
        Some(entries)
    } else {
        match with_defaults(entries, k - 1, is_mac) {
            Some(e) => match spec_parse_shortcut(default_text(k - 1), is_mac) {
                Some(c) => if is_bound(e, c) {
                    None
                } else {
                    Some(e.push((c, default_action(k - 1))))
                },
                None => None,
            },
            None => None,
        }
    }
}

proof fn lemma_with_defaults_stays_none(entries: Seq<(ChordView, Action)>, k1: int, k2: int, is_mac: bool)
    requires
        k1 <= k2,
        with_defaults(entries, k1, is_mac) is None,
    ensures
        with_defaults(entries, k2, is_mac) is None,
    decreases k2 - k1,
{
    if k1 < k2 {
        lemma_with_defaults_stays_none(entries, k1, k2 - 1, is_mac);
    }
}

/// The chords bound to commands equal to `a`, in binding order.
pub open spec fn keys_for(entries: Seq<(ChordView, Action)>, a: Action) -> Seq<ChordView>
    decreases entries.len(),
{
    if entries.len() == 0 {
        Seq::empty()
    } else {
        let rest = keys_for(entries.drop_last(), a);
        if same_action(entries.last().1, a) {
            rest.push(entries.last().0)
        } else {
            rest
        }
    }
}

/// Whether one of the chords of an input frame is `c`.
pub open spec fn is_pressed(pressed: Seq<KeyChord>, c: ChordView) -> bool {
    exists|i: int| 0 <= i < pressed.len() && (#[trigger] pressed[i])@ == c
}

/// The commands whose chords the input frame holds, in binding order.
pub open spec fn pressed_actions(entries: Seq<(ChordView, Action)>, pressed: Seq<KeyChord>) -> Seq<Action>
    decreases entries.len(),
{
    if entries.len() == 0 {
        Seq::empty()
    } else {
        let rest = pressed_actions(entries.drop_last(), pressed);
        if is_pressed(pressed, entries.last().0) {
            rest.push(entries.last().1)
        } else {
            rest
        }
    }
}

/// A queue after sending `items` in order to a bus bounded by `cap`: the
/// items that find room are appended, the rest are dropped.
pub open spec fn sent_all(queue: Seq<Action>, cap: int, items: Seq<Action>) -> Seq<Action> {
    let all = queue + items;
    if all.len() <= cap {
        all
    } else {
        all.subrange(0, cap)
    }
}

/// The table of key bindings: chords bound to commands, no chord twice.
pub struct KeyActions {
    map: Vec<(KeyChord, Action)>,
    is_mac: bool,
}

pub struct KeyActionsView {
    pub entries: Seq<(ChordView, Action)>,
    pub is_mac: bool,
}

impl View for KeyActions {
    type V = KeyActionsView;

    closed spec fn view(&self) -> KeyActionsView {
        KeyActionsView { entries: entries_of(self.map@), is_mac: self.is_mac }
    }
}

impl KeyActions {
    pub open spec fn wf(&self) -> bool {
        unique_chords(self@.entries)
    }

    /// An empty table; `is_mac` tells how `Cmd` reads and how chords are written.
    pub fn new(is_mac: bool) -> (r: KeyActions)
        ensures
            r.wf(),
            r@.entries.len() == 0,
            r@.is_mac == is_mac,
    {
        let r = KeyActions { map: Vec::new(), is_mac };
        assert(r@.entries =~= Seq::<(ChordView, Action)>::empty());
        r
    }

    pub fn is_mac(&self) -> (r: bool)
        ensures
            r == self@.is_mac,
    {
        self.is_mac
    }

    /// The bindings, in the order they were added.
    pub fn bindings(&self) -> (r: &Vec<(KeyChord, Action)>)
        ensures
            entries_of(r@) == self@.entries,
    {
        &self.map
    }

    /// Binds `key` to `action`, unless `key` is bound already: then the
    /// table is left as it is and the error names the chord and the command
    /// it is bound to.
    pub fn insert(&mut self, key: KeyChord, action: Action) -> (r: Result<(), KeyError>)
        requires
            old(self).wf(),
        ensures
            final(self).wf(),
            final(self)@.is_mac == old(self)@.is_mac,
            insert_post(old(self)@.entries, key@, action, r is Ok, final(self)@.entries),
            r matches Err(e) ==> e matches KeyError::Conflict { shortcut, action: name } && shortcut@ == chord_text(
                key@,
                old(self)@.is_mac,
            ) && (exists|i: int|
                0 <= i < old(self)@.entries.len() && (#[trigger] old(self)@.entries[i]).0 == key@
                    && name@ == spec_action_name(old(self)@.entries[i].1)),
    {
        let n = self.map.len();
        let mut i: usize = 0;
        while i < n
            invariant
                n == self.map@.len(),
                self.wf(),
                i <= n,
                forall|j: int| 0 <= j < i ==> (#[trigger] self.map@[j]).0@ != key@,
            decreases n - i,
        {
            if self.map[i].0.same(&key) {
                let shortcut = format_key(&key, self.is_mac);
                let name = self.map[i].1.name();
                proof {
                    assert(self@.entries[i as int].0 == key@);
                }
                return Err(KeyError::Conflict { shortcut, action: String::from_str(name) });
            }
            i = i + 1;
        }
        proof {
            assert forall|j: int| 0 <= j < self@.entries.len() implies (#[trigger] self@.entries[j]).0 != key@ by {
                assert(self@.entries[j].0 == self.map@[j].0@);
            }
        }
        let ghost before = self@.entries;
        self.map.push((key, action));
        proof {
            assert(self@.entries =~= before.push((key@, action)));
        }
        Ok(())
    }

    /// Adds the default bindings; stops at the first text that does not
    /// read or chord that is bound already, with that error.
    pub fn load_default(&mut self) -> (r: Result<(), KeyError>)
        requires
            old(self).wf(),
        ensures
            final(self).wf(),
            final(self)@.is_mac == old(self)@.is_mac,
            match with_defaults(old(self)@.entries, DEFAULT_COUNT as int, old(self)@.is_mac) {
                Some(e) => r is Ok && final(self)@.entries == e,
                None => r is Err,
            },
    {
        let ghost start = self@.entries;
        let mut i: usize = 0;
        while i < DEFAULT_COUNT
            invariant
                i <= DEFAULT_COUNT,
                self.wf(),
                self@.is_mac == old(self)@.is_mac,
                start == old(self)@.entries,
                with_defaults(start, i as int, self@.is_mac) == Some(self@.entries),
            decreases DEFAULT_COUNT - i,
        {
            let (text, action) = default_binding(i);
            let key = match parse_shortcut(text, self.is_mac) {
                Ok(k) => k,
                Err(e) => {
                    proof {
                        lemma_with_defaults_stays_none(start, i + 1, DEFAULT_COUNT as int, self@.is_mac);
                    }
                    return Err(e);
                },
            };
            match self.insert(key, action) {
                Ok(()) => {},
                Err(e) => {
                    proof {
                        lemma_with_defaults_stays_none(start, i + 1, DEFAULT_COUNT as int, self@.is_mac);
                    }
                    return Err(e);
                },
            }
            proof {
                assert(with_defaults(start, i + 1, self@.is_mac) == Some(self@.entries));
            }
            i = i + 1;
        }
        Ok(())
    }

    pub fn init(&mut self) -> (r: Result<(), KeyError>)
        requires
            old(self).wf(),
        ensures
            final(self).wf(),
            final(self)@.is_mac == old(self)@.is_mac,
            match with_defaults(old(self)@.entries, DEFAULT_COUNT as int, old(self)@.is_mac) {
                Some(e) => r is Ok && final(self)@.entries == e,
                None => r is Err,
            },
    {
        self.load_default()
    }

    /// The chords bound to `action`, in binding order; empty when none is.
    pub fn get_action_keys(&self, action: &Action) -> (r: Vec<KeyChord>)
        ensures
            r@.map_values(|k: KeyChord| k@) == keys_for(self@.entries, *action),
    {
        let n = self.map.len();
        let mut r: Vec<KeyChord> = Vec::new();
        let mut i: usize = 0;
        while i < n
            invariant
                n == self.map@.len(),
                i <= n,
                r@.map_values(|k: KeyChord| k@) == keys_for(self@.entries.subrange(0, i as int), *action),
            decreases n - i,
        {
            proof {
                let e = self@.entries.subrange(0, i + 1);
                assert(e.drop_last() =~= self@.entries.subrange(0, i as int));
                assert(e.last() == (self.map@[i as int].0@, self.map@[i as int].1));
            }
            if self.map[i].1.same(action) {
                let ghost before = r@;
                r.push(self.map[i].0.copied());
                proof {
                    assert(r@.map_values(|k: KeyChord| k@) =~= before.map_values(|k: KeyChord| k@).push(self.map@[i as int].0@));
                }
            }
            i = i + 1;
        }
        assert(self@.entries.subrange(0, n as int) =~= self@.entries);
        r
    }

    /// Sends to `bus`, in binding order, the command of every binding whose
    /// chord the input frame reports as pressed (`pressed`); each binding
    /// sends at most once. Commands that find the bus full are dropped.
    pub fn bind_to_context(&self, pressed: &Vec<KeyChord>, bus: &mut ActionBus)
        requires
            old(bus).wf(),
        ensures
            final(bus).wf(),
            final(bus)@.capacity == old(bus)@.capacity,
            final(bus)@.queue == sent_all(old(bus)@.queue, old(bus)@.capacity as int, pressed_actions(self@.entries, pressed@)),
    {
        let n = self.map.len();
        let mut i: usize = 0;
        while i < n
            invariant
                n == self.map@.len(),
                i <= n,
                bus.wf(),
                bus@.capacity == old(bus)@.capacity,
                bus@.queue == sent_all(old(bus)@.queue, old(bus)@.capacity as int, pressed_actions(self@.entries.subrange(0, i as int), pressed@)),
            decreases n - i,
        {
            proof {
                let e = self@.entries.subrange(0, i + 1);
                assert(e.drop_last() =~= self@.entries.subrange(0, i as int));
                assert(e.last() == (self.map@[i as int].0@, self.map@[i as int].1));
            }
            let mut hit = false;
            let m = pressed.len();
            let mut j: usize = 0;
            while j < m
                invariant
                    m == pressed@.len(),
                    j <= m,
                    i < n,
                    n == self.map@.len(),
                    hit == (exists|k: int| 0 <= k < j && (#[trigger] pressed@[k])@ == self.map@[i as int].0@),
                decreases m - j,
            {
                if pressed[j].same(&self.map[i].0) {
                    hit = true;
                }
                j = j + 1;
            }
            if hit {
                let ghost q = bus@.queue;
                let ghost items = pressed_actions(self@.entries.subrange(0, i as int), pressed@);
                let a = self.map[i].1.copied();
                let _ = bus.send(a);
                proof {
                    let all = old(bus)@.queue + items;
                    assert(old(bus)@.queue + items.push(a) =~= all.push(a));
                    let cap = old(bus)@.capacity as int;
                    if all.len() < cap {
                        assert(q == all);
                    } else {
                        assert(all.push(a).subrange(0, cap) =~= all.subrange(0, cap));
                    }
                }
            }
            i = i + 1;
        }
        assert(self@.entries.subrange(0, n as int) =~= self@.entries);
    }
}

/// Binding a chord that is bound already always fails and leaves the
/// binding that was there: after `c` is bound to `a`, binding `c` to `b`
/// fails and the table stays as the first binding left it.
pub proof fn lemma_insert_twice(
    e0: Seq<(ChordView, Action)>,
    e1: Seq<(ChordView, Action)>,
    e2: Seq<(ChordView, Action)>,
    c: ChordView,
    a: Action,
    b: Action,
    ok1: bool,
    ok2: bool,
)
    requires
        insert_post(e0, c, a, ok1, e1),
        insert_post(e1, c, b, ok2, e2),
    ensures
        !ok2,
        e2 == e1,
        is_bound(e2, c),
{
    if !is_bound(e0, c) {
        assert(e1[e1.len() - 1].0 == c);
    }
}

proof fn lemma_first_bad_prefix(toks: Seq<Seq<char>>, k: int, is_mac: bool)
    requires
        0 <= k <= toks.len(),
        first_bad_modifier(toks.subrange(0, k), is_mac) is Some,
    ensures
        first_bad_modifier(toks, is_mac) == first_bad_modifier(toks.subrange(0, k), is_mac),
    decreases toks.len(),
{
    if k < toks.len() {
        assert(toks.drop_last().subrange(0, k) =~= toks.subrange(0, k));
        lemma_first_bad_prefix(toks.drop_last(), k, is_mac);
    } else {
        assert(toks.subrange(0, k) =~= toks);
    }
}

} // verus!
