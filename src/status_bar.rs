//! The status bar: which items show in its left, center and right parts.
use vstd::prelude::*;

use crate::action::Action;
use crate::documents::{distance, one_based, OpenFile};

verus! {

#[derive(Debug, Clone, Copy, PartialEq, Eq, Structural)]
pub enum ItemId {
    FilePath,
    FileEncoding,
    FileLineEnding,
    CursorStat,
    Fps,
}

#[derive(Debug, Clone, Copy, PartialEq, Eq, Structural)]
pub enum Region {
    Left,
    Center,
    Right,
}

pub open spec fn digit(d: int) -> char {
    if d == 0 {
        '0'
    } else if d == 1 {
        '1'
    } else if d == 2 {
        '2'
    } else if d == 3 {
        '3'
    } else if d == 4 {
        '4'
    } else if d == 5 {
        '5'
    } else if d == 6 {
        '6'
    } else if d == 7 {
        '7'
    } else if d == 8 {
        '8'
    } else {
        '9'
    }
}

/// The decimal digits of `n`.
pub open spec fn decimal(n: nat) -> Seq<char>
    decreases n,
{
    if n < 10 {
        seq![digit(n as int)]
    } else {
        decimal(n / 10) + seq![digit((n % 10) as int)]
    }
}

fn digit_str(d: usize) -> (r: &'static str)
    requires
        d < 10,
    ensures
        r@ == seq![digit(d as int)],
{
    proof {
        reveal_strlit("0");
        reveal_strlit("1");
        reveal_strlit("2");
        reveal_strlit("3");
        reveal_strlit("4");
        reveal_strlit("5");
        reveal_strlit("6");
        reveal_strlit("7");
        reveal_strlit("8");
        reveal_strlit("9");
    }
    let r = match d {
        0 => "0",
        1 => "1",
        2 => "2",
        3 => "3",
        4 => "4",
        5 => "5",
        6 => "6",
        7 => "7",
        8 => "8",
        _ => "9",
    };
    assert(r@ =~= seq![digit(d as int)]);
    r
}

/// Writes `n` in decimal.
pub fn decimal_text(n: usize) -> (r: String)
    ensures
        r@ == decimal(n as nat),
    decreases n,
{
    if n < 10 {
        String::from_str(digit_str(n))
    } else {
        let mut r = decimal_text(n / 10);
        r.append(digit_str(n % 10));
        r
    }
}

/// What a status item shows for the current file, if anything: its path
/// (marked ` [+]` while unsaved), its encoding, its line ending, or the
/// cursor as `Row r, Col c (s Selected)`. The frame rate is measured and
/// shown by the caller.
pub open spec fn spec_item_text(item: ItemId, file: Option<OpenFile>) -> Option<Seq<char>> {
    match file {
        None => None,
        Some(f) => match item {
            ItemId::FilePath => Some(f.path@ + (if f.changed {
                " [+]"@
            } else {
                Seq::empty()
            })),
            ItemId::FileEncoding => Some(f.encoding@),
            ItemId::FileLineEnding => Some(f.line_ending.label()),
            ItemId::CursorStat => match f.cursor_range {
                Some(c) => Some("Row "@ + decimal(one_based(c.row) as nat) + ", Col "@ + decimal(
                    one_based(c.column) as nat,
                ) + " ("@ + decimal(distance(c.primary, c.secondary) as nat) + " Selected)"@),
                None => None,
            },
            ItemId::Fps => None,
        },
    }
}

impl ItemId {
    pub fn item_text(&self, file: Option<&OpenFile>) -> (r: Option<String>)
        ensures
            match spec_item_text(*self, match file {
                Some(f) => Some(*f),
                None => None,
            }) {
                Some(t) => r matches Some(s) && s@ == t,
                None => r is None,
            },
    {
        let f = match file {
            Some(f) => f,
            None => {
                return None;
            },
        };
        match self {
            ItemId::FilePath => {
                let mut t = f.path.clone();
                if f.changed {
                    t.append(" [+]");
                } else {
                    assert(t@ =~= t@ + Seq::<char>::empty());
                }
                Some(t)
            },
            ItemId::FileEncoding => Some(String::from_str(f.encoding())),
            ItemId::FileLineEnding => Some(String::from_str(f.line_ending.as_str())),
            ItemId::CursorStat => match f.cursor_stat() {
                Some((row, col, selected)) => {
                    let mut t = String::from_str("Row ");
                    t.append(decimal_text(row).as_str());
                    t.append(", Col ");
                    t.append(decimal_text(col).as_str());
                    t.append(" (");
                    t.append(decimal_text(selected).as_str());
                    t.append(" Selected)");
                    Some(t)
                },
                None => None,
            },
            ItemId::Fps => None,
        }
    }
}

pub struct StatusBar {
    pub left: Vec<ItemId>,
    pub center: Vec<ItemId>,
    pub right: Vec<ItemId>,
}

impl StatusBar {
    /// Frame rate on the left; line ending, encoding and cursor on the
    /// right; the current file's path in the center.
    pub fn new() -> (r: StatusBar)
        ensures
            r.left@ == seq![ItemId::Fps],
            r.right@ == seq![ItemId::FileLineEnding, ItemId::FileEncoding, ItemId::CursorStat],
            r.center@ == seq![ItemId::FilePath],
    {
        let slf = StatusBar { left: Vec::new(), right: Vec::new(), center: Vec::new() };
        let r = slf.push_left(ItemId::Fps).push_right(ItemId::FileLineEnding).push_right(ItemId::FileEncoding).push_right(
            ItemId::CursorStat,
        ).push_center(ItemId::FilePath);
        assert(r.left@ =~= seq![ItemId::Fps]);
        assert(r.right@ =~= seq![ItemId::FileLineEnding, ItemId::FileEncoding, ItemId::CursorStat]);
        assert(r.center@ =~= seq![ItemId::FilePath]);
        r
    }

    pub fn push_left(self, item: ItemId) -> (r: Self)
        ensures
            r.left@ == self.left@.push(item),
            r.center@ == self.center@,
            r.right@ == self.right@,
    {
        let mut s = self;
        s.left.push(item);
        s
    }

    pub fn push_center(self, item: ItemId) -> (r: Self)
        ensures
            r.center@ == self.center@.push(item),
            r.left@ == self.left@,
            r.right@ == self.right@,
    {
        let mut s = self;
        s.center.push(item);
        s
    }

    pub fn push_right(self, item: ItemId) -> (r: Self)
        ensures
            r.right@ == self.right@.push(item),
            r.left@ == self.left@,
            r.center@ == self.center@,
    {
        let mut s = self;
        s.right.push(item);
        s
    }

    /// The status bar keeps no state that a command changes.
    pub fn handle(&mut self, _action: &Action)
        ensures
            final(self).left@ == old(self).left@,
            final(self).center@ == old(self).center@,
            final(self).right@ == old(self).right@,
    {
    }
}

} // verus!
