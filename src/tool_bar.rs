//! The tool rail: tools at the top, one of which may be selected, and tools
//! at the bottom that send a command when clicked.
use vstd::prelude::*;

use crate::action::Action;

verus! {

#[derive(Debug, Clone, PartialEq, Eq)]
pub enum ToolId {
    Explorer,
    Search,
    Extension,
    Setting,
    Custom(String),
}

/// Two tool ids are the same.
pub open spec fn same_tool(a: ToolId, b: ToolId) -> bool {
    match (a, b) {
        (ToolId::Explorer, ToolId::Explorer) => true,
        (ToolId::Search, ToolId::Search) => true,
        (ToolId::Extension, ToolId::Extension) => true,
        (ToolId::Setting, ToolId::Setting) => true,
        (ToolId::Custom(x), ToolId::Custom(y)) => x@ == y@,
        _ => false,
    }
}

impl ToolId {
    pub fn same(&self, o: &ToolId) -> (r: bool)
        ensures
            r == same_tool(*self, *o),
    {
        match (self, o) {
            (ToolId::Explorer, ToolId::Explorer) => true,
            (ToolId::Search, ToolId::Search) => true,
            (ToolId::Extension, ToolId::Extension) => true,
            (ToolId::Setting, ToolId::Setting) => true,
            (ToolId::Custom(x), ToolId::Custom(y)) => *x == *y,
            _ => false,
        }
    }
}

/// A tool and the command it stands for.
pub struct Item {
    pub id: ToolId,
    pub action: Action,
}

/// `usize::MAX` stands for "no tool".
pub struct ToolBar {
    pub top: Vec<Item>,
    pub bottom: Vec<Item>,
    pub current_index: usize,
    pub hover_index: usize,
}

/// The place of the first tool of `items` with id `id`.
pub open spec fn first_with_id(items: Seq<Item>, id: ToolId) -> Option<int>
    decreases items.len(),
{
    if items.len() == 0 {
        None
    } else {
        match first_with_id(items.drop_last(), id) {
            Some(i) => Some(i),
            None => if same_tool(items.last().id, id) {
                Some(items.len() - 1)
            } else {
                None
            },
        }
    }
}

proof fn lemma_first_with_id(items: Seq<Item>, id: ToolId, k: int)
    requires
        0 <= k <= items.len(),
        forall|j: int| 0 <= j < k ==> !same_tool(#[trigger] items[j].id, id),
    ensures
        k < items.len() && same_tool(items[k].id, id) ==> first_with_id(items, id) == Some(k),
        k == items.len() ==> first_with_id(items, id) is None,
    decreases items.len(),
{
    if items.len() > 0 {
        if k < items.len() {
            if k < items.len() - 1 {
                assert forall|j: int| 0 <= j < k implies !same_tool(#[trigger] items.drop_last()[j].id, id) by {
                    assert(items.drop_last()[j] == items[j]);
                }
                lemma_first_with_id(items.drop_last(), id, k);
                assert(items.drop_last()[k] == items[k]);
            } else {
                assert forall|j: int| 0 <= j < k implies !same_tool(#[trigger] items.drop_last()[j].id, id) by {
                    assert(items.drop_last()[j] == items[j]);
                }
                lemma_first_with_id(items.drop_last(), id, k);
            }
        } else {
            assert forall|j: int| 0 <= j < k - 1 implies !same_tool(#[trigger] items.drop_last()[j].id, id) by {
                assert(items.drop_last()[j] == items[j]);
            }
            lemma_first_with_id(items.drop_last(), id, k - 1);
        }
    }
}

impl ToolBar {
    /// The rail with Explorer, Search and Extension at the top and Setting
    /// at the bottom; nothing selected.
    pub fn new() -> (r: ToolBar)
        ensures
            r.top@.len() == 3,
            r.bottom@.len() == 1,
            r.top@[0].id == ToolId::Explorer && r.top@[0].action == Action::ToggleExplorer,
            r.top@[1].id == ToolId::Search && r.top@[1].action == Action::NoOp,
            r.top@[2].id == ToolId::Extension && r.top@[2].action == Action::NoOp,
            r.bottom@[0].id == ToolId::Setting && r.bottom@[0].action == Action::OpenSettingWindow,
            r.current_index == usize::MAX,
            r.hover_index == usize::MAX,
    {
        let slf = ToolBar { top: Vec::new(), bottom: Vec::new(), current_index: usize::MAX, hover_index: usize::MAX };
        slf.push_top(Item { id: ToolId::Explorer, action: Action::ToggleExplorer }).push_top(
            Item { id: ToolId::Search, action: Action::NoOp },
        ).push_top(Item { id: ToolId::Extension, action: Action::NoOp }).push_bottom(
            Item { id: ToolId::Setting, action: Action::OpenSettingWindow },
        )
    }

    pub fn push_top(self, item: Item) -> (r: Self)
        ensures
            r.top@ == self.top@.push(item),
            r.bottom@ == self.bottom@,
            r.current_index == self.current_index,
            r.hover_index == self.hover_index,
    {
        let mut s = self;
        s.top.push(item);
        s
    }

    pub fn push_bottom(self, item: Item) -> (r: Self)
        ensures
            r.bottom@ == self.bottom@.push(item),
            r.top@ == self.top@,
            r.current_index == self.current_index,
            r.hover_index == self.hover_index,
    {
        let mut s = self;
        s.bottom.push(item);
        s
    }

    /// The selected top tool, if any.
    pub fn current_item(&self) -> (r: Option<&Item>)
        ensures
            r is Some <==> self.current_index < self.top@.len(),
            r matches Some(i) ==> *i == self.top@[self.current_index as int],
    {
        if self.current_index < self.top.len() {
            Some(&self.top[self.current_index])
        } else {
            None
        }
    }

    /// Selects the first top tool with id `item_id`, or deselects it when it
    /// is selected; nothing happens when no top tool has that id.
    pub fn toggle_item(&mut self, item_id: ToolId)
        ensures
            final(self).top == old(self).top,
            final(self).bottom == old(self).bottom,
            final(self).hover_index == old(self).hover_index,
            final(self).current_index == (match first_with_id(old(self).top@, item_id) {
                Some(i) => if old(self).current_index as int == i {
                    usize::MAX
                } else {
                    i as usize
                },
                None => old(self).current_index,
            }),
    {
        let n = self.top.len();
        let mut i: usize = 0;
        while i < n
            invariant
                n == self.top@.len(),
                i <= n,
                self.top == old(self).top,
                self.bottom == old(self).bottom,
                self.hover_index == old(self).hover_index,
                self.current_index == old(self).current_index,
                forall|j: int| 0 <= j < i ==> !same_tool(#[trigger] self.top@[j].id, item_id),
            decreases n - i,
        {
            if self.top[i].id.same(&item_id) {
                proof {
                    lemma_first_with_id(self.top@, item_id, i as int);
                }
                if self.current_index == i {
                    self.current_index = usize::MAX;
                } else {
                    self.current_index = i;
                }
                return;
            }
            i = i + 1;
        }
        proof {
            lemma_first_with_id(self.top@, item_id, i as int);
        }
    }

    /// Selects the first top tool with id `item_id`, if there is one.
    pub fn select_item(&mut self, item_id: ToolId)
        ensures
            final(self).top == old(self).top,
            final(self).bottom == old(self).bottom,
            final(self).hover_index == old(self).hover_index,
            final(self).current_index == (match first_with_id(old(self).top@, item_id) {
                Some(i) => i as usize,
                None => old(self).current_index,
            }),
    {
        let n = self.top.len();
        let mut i: usize = 0;
        while i < n
            invariant
                n == self.top@.len(),
                i <= n,
                self.top == old(self).top,
                self.bottom == old(self).bottom,
                self.hover_index == old(self).hover_index,
                self.current_index == old(self).current_index,
                forall|j: int| 0 <= j < i ==> !same_tool(#[trigger] self.top@[j].id, item_id),
            decreases n - i,
        {
            if self.top[i].id.same(&item_id) {
                proof {
                    lemma_first_with_id(self.top@, item_id, i as int);
                }
                self.current_index = i;
                return;
            }
            i = i + 1;
        }
        proof {
            lemma_first_with_id(self.top@, item_id, i as int);
        }
    }

    /// A click on the top tool at `index`: selects it, or deselects it when
    /// it is selected.
    pub fn click_top(&mut self, index: usize)
        ensures
            final(self).top == old(self).top,
            final(self).bottom == old(self).bottom,
            final(self).hover_index == old(self).hover_index,
            final(self).current_index == if old(self).current_index == index {
                usize::MAX
            } else {
                index
            },
    {
        self.current_index = if self.current_index == index {
            usize::MAX
        } else {
            index
        };
    }

    /// Records whether the pointer is over the top tool at `index`: it
    /// becomes the hovered tool, or stops being it.
    pub fn hover_top(&mut self, index: usize, hovered: bool)
        ensures
            final(self).top == old(self).top,
            final(self).bottom == old(self).bottom,
            final(self).current_index == old(self).current_index,
            final(self).hover_index == if hovered {
                index
            } else if old(self).hover_index == index {
                usize::MAX
            } else {
                old(self).hover_index
            },
    {
        if hovered {
            self.hover_index = index;
        } else if self.hover_index == index {
            self.hover_index = usize::MAX;
        }
    }

    /// Whether the top tool at `index` is drawn highlighted: hovered or
    /// selected.
    pub fn is_highlighted(&self, index: usize) -> (r: bool)
        ensures
            r == (self.hover_index == index || self.current_index == index),
    {
        self.hover_index == index || self.current_index == index
    }

    /// Reacts to a command: `ToggleExplorer` toggles the Explorer tool.
    pub fn handle(&mut self, action: &Action)
        ensures
            final(self).top == old(self).top,
            final(self).bottom == old(self).bottom,
            final(self).hover_index == old(self).hover_index,
            final(self).current_index == (if *action is ToggleExplorer {
                match first_with_id(old(self).top@, ToolId::Explorer) {
                    Some(i) => if old(self).current_index as int == i {
                        usize::MAX
                    } else {
                        i as usize
                    },
                    None => old(self).current_index,
                }
            } else {
                old(self).current_index
            }),
    {
        match action {
            Action::ToggleExplorer => self.toggle_item(ToolId::Explorer),
            _ => {},
        }
    }
}

} // verus!
