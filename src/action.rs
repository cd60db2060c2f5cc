//! The closed vocabulary of commands that menus, key bindings and the file
//! tree send, and their stable names.
use vstd::prelude::*;

use crate::strs::str_eq;

verus! {

/// A command. `ZoomSet` carries the zoom factor in tenths (`12` is 1.2);
/// `SetOpenDir` carries the path of the directory to show.
#[derive(Debug, Clone, PartialEq, Eq)]
pub enum Action {
    NoOp,
    ExitApp,
    ToggleFullScreen,
    ToggleDecorations,
    ToggleStatusBar,
    ToggleToolBar,
    ToggleExplorer,
    ToggleTerminal,
    ToggleVerticalTabBar,
    ZoomIn,
    ZoomOut,
    ZoomReset,
    ZoomSet(u32),
    OpenDebugWindow,
    OpenPuffinViewer,
    OpenAboutWindow,
    OpenSettingWindow,
    OpenFolder,
    SetOpenDir(String),
}

/// The stable name of each command.
pub open spec fn spec_action_name(action: Action) -> Seq<char> {
    match action {
        Action::NoOp => "NoOp"@,
        Action::ExitApp => "ExitApp"@,
        Action::ToggleFullScreen => "ToggleFullScreen"@,
        Action::ToggleDecorations => "ToggleDecorations"@,
        Action::ToggleStatusBar => "ToggleStatusBar"@,
        Action::ToggleToolBar => "ToggleToolBar"@,
        Action::ToggleExplorer => "ToggleExplorer"@,
        Action::ToggleTerminal => "ToggleTerminal"@,
        Action::ToggleVerticalTabBar => "ToggleVerticalTabBar"@,
        Action::ZoomIn => "ZoomIn"@,
        Action::ZoomOut => "ZoomOut"@,
        Action::ZoomReset => "ZoomReset"@,
        Action::ZoomSet(_) => "ZoomSet"@,
        Action::OpenDebugWindow => "OpenDebugWindow"@,
        Action::OpenPuffinViewer => "OpenPuffinViewer"@,
        Action::OpenAboutWindow => "OpenAboutWindow"@,
        Action::OpenSettingWindow => "OpenSettingWindow"@,
        Action::OpenFolder => "OpenFolder"@,
        Action::SetOpenDir(_) => "SetOpenDir"@,
    }
}

/// Two commands are the same: same variant and same payload.
pub open spec fn same_action(a: Action, b: Action) -> bool {
    match (a, b) {
        (Action::ZoomSet(x), Action::ZoomSet(y)) => x == y,
        (Action::SetOpenDir(x), Action::SetOpenDir(y)) => x@ == y@,
        _ => spec_action_name(a) == spec_action_name(b) && !(a is ZoomSet) && !(a is SetOpenDir)
            && !(b is ZoomSet) && !(b is SetOpenDir),
    }
}

impl Action {
    pub fn name(&self) -> (r: &'static str)
        ensures
            r@ == spec_action_name(*self),
    {
        action_name(self)
    }

    /// A copy of the command.
    pub fn copied(&self) -> (r: Action)
        ensures
            r == *self,
    {
        match self {
            Action::NoOp => Action::NoOp,
            Action::ExitApp => Action::ExitApp,
            Action::ToggleFullScreen => Action::ToggleFullScreen,
            Action::ToggleDecorations => Action::ToggleDecorations,
            Action::ToggleStatusBar => Action::ToggleStatusBar,
            Action::ToggleToolBar => Action::ToggleToolBar,
            Action::ToggleExplorer => Action::ToggleExplorer,
            Action::ToggleTerminal => Action::ToggleTerminal,
            Action::ToggleVerticalTabBar => Action::ToggleVerticalTabBar,
            Action::ZoomIn => Action::ZoomIn,
            Action::ZoomOut => Action::ZoomOut,
            Action::ZoomReset => Action::ZoomReset,
            Action::ZoomSet(v) => Action::ZoomSet(*v),
            Action::OpenDebugWindow => Action::OpenDebugWindow,
            Action::OpenPuffinViewer => Action::OpenPuffinViewer,
            Action::OpenAboutWindow => Action::OpenAboutWindow,
            Action::OpenSettingWindow => Action::OpenSettingWindow,
            Action::OpenFolder => Action::OpenFolder,
            Action::SetOpenDir(p) => Action::SetOpenDir(p.clone()),
        }
    }

    /// Whether `self` and `other` are the same command.
    pub fn same(&self, other: &Action) -> (r: bool)
        ensures
            r == same_action(*self, *other),
    {
        match (self, other) {
            (Action::ZoomSet(x), Action::ZoomSet(y)) => *x == *y,
            (Action::SetOpenDir(x), Action::SetOpenDir(y)) => *x == *y,
            (Action::ZoomSet(_), _) => false,
            (Action::SetOpenDir(_), _) => false,
            (_, Action::ZoomSet(_)) => false,
            (_, Action::SetOpenDir(_)) => false,
            _ => str_eq(self.name(), other.name()),
        }
    }
}

pub fn action_name(action: &Action) -> (r: &'static str)
    ensures
        r@ == spec_action_name(*action),
{
    match action {
        Action::NoOp => "NoOp",
        Action::ExitApp => "ExitApp",
        Action::ToggleFullScreen => "ToggleFullScreen",
        Action::ToggleDecorations => "ToggleDecorations",
        Action::ToggleStatusBar => "ToggleStatusBar",
        Action::ToggleToolBar => "ToggleToolBar",
        Action::ToggleExplorer => "ToggleExplorer",
        Action::ToggleTerminal => "ToggleTerminal",
        Action::ToggleVerticalTabBar => "ToggleVerticalTabBar",
        Action::ZoomIn => "ZoomIn",
        Action::ZoomOut => "ZoomOut",
        Action::ZoomReset => "ZoomReset",
        Action::ZoomSet(_) => "ZoomSet",
        Action::OpenDebugWindow => "OpenDebugWindow",
        Action::OpenPuffinViewer => "OpenPuffinViewer",
        Action::OpenAboutWindow => "OpenAboutWindow",
        Action::OpenSettingWindow => "OpenSettingWindow",
        Action::OpenFolder => "OpenFolder",
        Action::SetOpenDir(_) => "SetOpenDir",
    }
}

/// How many commands carry no payload.
pub const NAMED_COUNT: usize = 17;

/// The commands without a payload, by name in alphabetical order.
pub open spec fn named_action(i: int) -> Action {
    if i == 0 {
        Action::ExitApp
    } else if i == 1 {
        Action::NoOp
    } else if i == 2 {
        Action::OpenAboutWindow
    } else if i == 3 {
        Action::OpenDebugWindow
    } else if i == 4 {
        Action::OpenFolder
    } else if i == 5 {
        Action::OpenPuffinViewer
    } else if i == 6 {
        Action::OpenSettingWindow
    } else if i == 7 {
        Action::ToggleDecorations
    } else if i == 8 {
        Action::ToggleExplorer
    } else if i == 9 {
        Action::ToggleFullScreen
    } else if i == 10 {
        Action::ToggleStatusBar
    } else if i == 11 {
        Action::ToggleTerminal
    } else if i == 12 {
        Action::ToggleToolBar
    } else if i == 13 {
        Action::ToggleVerticalTabBar
    } else if i == 14 {
        Action::ZoomIn
    } else if i == 15 {
        Action::ZoomOut
    } else if i == 16 {
        Action::ZoomReset
    } else {
        Action::NoOp
    }
}

fn named_action_at(i: usize) -> (r: Action)
    requires
        i < NAMED_COUNT,
    ensures
        r == named_action(i as int),
{
    match i {
        0 => Action::ExitApp,
        1 => Action::NoOp,
        2 => Action::OpenAboutWindow,
        3 => Action::OpenDebugWindow,
        4 => Action::OpenFolder,
        5 => Action::OpenPuffinViewer,
        6 => Action::OpenSettingWindow,
        7 => Action::ToggleDecorations,
        8 => Action::ToggleExplorer,
        9 => Action::ToggleFullScreen,
        10 => Action::ToggleStatusBar,
        11 => Action::ToggleTerminal,
        12 => Action::ToggleToolBar,
        13 => Action::ToggleVerticalTabBar,
        14 => Action::ZoomIn,
        15 => Action::ZoomOut,
        _ => Action::ZoomReset,
    }
}

/// The first of the commands without a payload, from place `k` on, whose
/// name is `name`.
pub open spec fn find_named(name: Seq<char>, k: int) -> Option<Action>
    decreases NAMED_COUNT - k,
{
    if k < 0 || k >= NAMED_COUNT {
        None
    } else if spec_action_name(named_action(k)) == name {
        Some(named_action(k))
    } else {
        find_named(name, k + 1)
    }
}

/// The command a name stands for: every command without a payload, by its
/// name.
pub open spec fn spec_parse_action(name: Seq<char>) -> Option<Action> {
    find_named(name, 0)
}

proof fn lemma_find_named(name: Seq<char>, k: int, j: int)
    requires
        0 <= k <= j < NAMED_COUNT,
        spec_action_name(named_action(j)) == name,
        forall|i: int| k <= i < NAMED_COUNT && i != j ==> spec_action_name(#[trigger] named_action(i)) != name,
    ensures
        find_named(name, k) == Some(named_action(j)),
    decreases j - k,
{
    if k < j {
        lemma_find_named(name, k + 1, j);
    }
}

/// The characters of the name of the `k`-th command without a payload.
pub open spec fn name_chars(k: int) -> Seq<char> {
    if k == 0 {
        seq!['E', 'x', 'i', 't', 'A', 'p', 'p']
    } else if k == 1 {
        seq!['N', 'o', 'O', 'p']
    } else if k == 2 {
        seq!['O', 'p', 'e', 'n', 'A', 'b', 'o', 'u', 't', 'W', 'i', 'n', 'd', 'o', 'w']
    } else if k == 3 {
        seq!['O', 'p', 'e', 'n', 'D', 'e', 'b', 'u', 'g', 'W', 'i', 'n', 'd', 'o', 'w']
    } else if k == 4 {
        seq!['O', 'p', 'e', 'n', 'F', 'o', 'l', 'd', 'e', 'r']
    } else if k == 5 {
        seq!['O', 'p', 'e', 'n', 'P', 'u', 'f', 'f', 'i', 'n', 'V', 'i', 'e', 'w', 'e', 'r']
    } else if k == 6 {
        seq!['O', 'p', 'e', 'n', 'S', 'e', 't', 't', 'i', 'n', 'g', 'W', 'i', 'n', 'd', 'o', 'w']
    } else if k == 7 {
        seq!['T', 'o', 'g', 'g', 'l', 'e', 'D', 'e', 'c', 'o', 'r', 'a', 't', 'i', 'o', 'n', 's']
    } else if k == 8 {
        seq!['T', 'o', 'g', 'g', 'l', 'e', 'E', 'x', 'p', 'l', 'o', 'r', 'e', 'r']
    } else if k == 9 {
        seq!['T', 'o', 'g', 'g', 'l', 'e', 'F', 'u', 'l', 'l', 'S', 'c', 'r', 'e', 'e', 'n']
    } else if k == 10 {
        seq!['T', 'o', 'g', 'g', 'l', 'e', 'S', 't', 'a', 't', 'u', 's', 'B', 'a', 'r']
    } else if k == 11 {
        seq!['T', 'o', 'g', 'g', 'l', 'e', 'T', 'e', 'r', 'm', 'i', 'n', 'a', 'l']
    } else if k == 12 {
        seq!['T', 'o', 'g', 'g', 'l', 'e', 'T', 'o', 'o', 'l', 'B', 'a', 'r']
    } else if k == 13 {
        seq!['T', 'o', 'g', 'g', 'l', 'e', 'V', 'e', 'r', 't', 'i', 'c', 'a', 'l', 'T', 'a', 'b', 'B', 'a', 'r']
    } else if k == 14 {
        seq!['Z', 'o', 'o', 'm', 'I', 'n']
    } else if k == 15 {
        seq!['Z', 'o', 'o', 'm', 'O', 'u', 't']
    } else if k == 16 {
        seq!['Z', 'o', 'o', 'm', 'R', 'e', 's', 'e', 't']
    } else {
        Seq::empty()
    }
}

proof fn lemma_name_chars(k: int)
    requires
        0 <= k < NAMED_COUNT,
    ensures
        spec_action_name(named_action(k)) == name_chars(k),
{
    if k == 0 {
        reveal_strlit("ExitApp");
        assert(spec_action_name(named_action(k)) =~= name_chars(k));
    } else if k == 1 {
        reveal_strlit("NoOp");
        assert(spec_action_name(named_action(k)) =~= name_chars(k));
    } else if k == 2 {
        reveal_strlit("OpenAboutWindow");
        assert(spec_action_name(named_action(k)) =~= name_chars(k));
    } else if k == 3 {
        reveal_strlit("OpenDebugWindow");
        assert(spec_action_name(named_action(k)) =~= name_chars(k));
    } else if k == 4 {
        reveal_strlit("OpenFolder");
        assert(spec_action_name(named_action(k)) =~= name_chars(k));
    } else if k == 5 {
        reveal_strlit("OpenPuffinViewer");
        assert(spec_action_name(named_action(k)) =~= name_chars(k));
    } else if k == 6 {
        reveal_strlit("OpenSettingWindow");
        assert(spec_action_name(named_action(k)) =~= name_chars(k));
    } else if k == 7 {
        reveal_strlit("ToggleDecorations");
        assert(spec_action_name(named_action(k)) =~= name_chars(k));
    } else if k == 8 {
        reveal_strlit("ToggleExplorer");
        assert(spec_action_name(named_action(k)) =~= name_chars(k));
    } else if k == 9 {
        reveal_strlit("ToggleFullScreen");
        assert(spec_action_name(named_action(k)) =~= name_chars(k));
    } else if k == 10 {
        reveal_strlit("ToggleStatusBar");
        assert(spec_action_name(named_action(k)) =~= name_chars(k));
    } else if k == 11 {
        reveal_strlit("ToggleTerminal");
        assert(spec_action_name(named_action(k)) =~= name_chars(k));
    } else if k == 12 {
        reveal_strlit("ToggleToolBar");
        assert(spec_action_name(named_action(k)) =~= name_chars(k));
    } else if k == 13 {
        reveal_strlit("ToggleVerticalTabBar");
        assert(spec_action_name(named_action(k)) =~= name_chars(k));
    } else if k == 14 {
        reveal_strlit("ZoomIn");
        assert(spec_action_name(named_action(k)) =~= name_chars(k));
    } else if k == 15 {
        reveal_strlit("ZoomOut");
        assert(spec_action_name(named_action(k)) =~= name_chars(k));
    } else if k == 16 {
        reveal_strlit("ZoomReset");
        assert(spec_action_name(named_action(k)) =~= name_chars(k));
    }
}

/// Every command without a payload reads back from its name.
pub proof fn lemma_parse_action_name(a: Action)
    requires
        !(a is ZoomSet),
        !(a is SetOpenDir),
    ensures
        spec_parse_action(spec_action_name(a)) == Some(a),
{
    let j: int = match a {
        Action::ExitApp => 0,
        Action::NoOp => 1,
        Action::OpenAboutWindow => 2,
        Action::OpenDebugWindow => 3,
        Action::OpenFolder => 4,
        Action::OpenPuffinViewer => 5,
        Action::OpenSettingWindow => 6,
        Action::ToggleDecorations => 7,
        Action::ToggleExplorer => 8,
        Action::ToggleFullScreen => 9,
        Action::ToggleStatusBar => 10,
        Action::ToggleTerminal => 11,
        Action::ToggleToolBar => 12,
        Action::ToggleVerticalTabBar => 13,
        Action::ZoomIn => 14,
        Action::ZoomOut => 15,
        Action::ZoomReset => 16,
        _ => 0,
    };
    assert(named_action(j) == a);
    lemma_name_chars(j);
    assert forall|i: int| 0 <= i < NAMED_COUNT && i != j implies spec_action_name(#[trigger] named_action(i)) != spec_action_name(a) by {
        lemma_name_chars(i);
        let x = name_chars(i);
        let y = name_chars(j);
        if x == y {
            assert(x.len() == y.len());
            assert(x[0] == y[0] && x[3] == y[3] && x[4] == y[4] && x[6] == y[6] && x[x.len() - 1] == y[y.len() - 1]);
        }
    }
    lemma_find_named(spec_action_name(a), 0, j);
}

impl std::str::FromStr for Action {
    type Err = String;

    fn from_str(s: &str) -> Result<Action, String> {
        parse_action(s)
    }
}

/// Looks a command without a payload up by its name; the error holds the
/// name not found.
pub fn parse_action(action_name: &str) -> (r: Result<Action, String>)
    ensures
        match spec_parse_action(action_name@) {
            Some(a) => r == Ok::<Action, String>(a),
            None => r matches Err(e) && e@ == action_name@,
        },
{
    let mut k: usize = 0;
    while k < NAMED_COUNT
        invariant
            k <= NAMED_COUNT,
            find_named(action_name@, 0) == find_named(action_name@, k as int),
        decreases NAMED_COUNT - k,
    {
        let a = named_action_at(k);
        if str_eq(action_name, a.name()) {
            return Ok(a);
        }
        k = k + 1;
    }
    Err(String::from_str(action_name))
}

} // verus!
