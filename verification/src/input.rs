//! The key-event state machines of the interactive views.
//!
//! The presentation layer forwards each key press as a plain [`UiKey`]; the
//! components here decide, as pure state transitions, how the view state
//! changes and which action (none, or cycling the stop condition) the caller
//! should perform. Every transition is stated by a spec function and proved
//! of the executable handler.

use vstd::prelude::*;

verus! {

/// The top-level menu entries.
#[derive(Clone, Copy, PartialEq, Eq, Structural, Debug)]
pub enum MenuItem {
    Home,
    Nodes,
    Edit,
    SubSearch,
}

/// The position of a menu entry in the tab row.
pub open spec fn menu_index(m: MenuItem) -> usize {
    match m {
        MenuItem::Home => 0,
        MenuItem::Nodes => 1,
        MenuItem::Edit => 2,
        MenuItem::SubSearch => 3,
    }
}

impl From<MenuItem> for usize {
    /// The position of a menu entry in the tab row.
    fn from(input: MenuItem) -> (r: usize)
        ensures
            r == menu_index(input),
    {
        match input {
            MenuItem::Home => 0,
            MenuItem::Nodes => 1,
            MenuItem::Edit => 2,
            MenuItem::SubSearch => 3,
        }
    }
}

impl vstd::std_specs::convert::FromSpecImpl<MenuItem> for usize {
    open spec fn obeys_from_spec() -> bool {
        true
    }

    open spec fn from_spec(m: MenuItem) -> usize {
        menu_index(m)
    }
}

/// A key press, as the views understand it.
#[derive(Clone, Copy, PartialEq, Eq, Structural, Debug)]
pub enum UiKey {
    Char(char),
    Tab,
    BackTab,
    Up,
    Down,
    Left,
    Right,
    PageUp,
    PageDown,
    Enter,
    Esc,
    Backspace,
    Function(u8),
    Other,
}

/// What the caller should do after a key was handled.
#[derive(Clone, Copy, PartialEq, Eq, Structural, Debug)]
pub enum UiAction {
    /// Nothing beyond the state change already made.
    Nothing,
    /// Cycle the stop condition forward (`true`) or backward (`false`) and
    /// re-run the layout.
    CycleStop { forward: bool },
}

/// Relies on String::push: appends exactly the given character.
#[verifier::external_body]
fn push_char(s: &mut String, c: char)
    ensures
        final(s)@ == old(s)@.push(c),
{
    s.push(c);
}

/// Relies on String::pop: removes and returns the last character, or leaves
/// an empty string as it is.
#[verifier::external_body]
fn pop_char(s: &mut String) -> (r: Option<char>)
    ensures
        old(s)@.len() == 0 ==> final(s)@ == old(s)@ && r is None,
        old(s)@.len() > 0 ==> final(s)@ == old(s)@.drop_last() && r == Some(old(s)@.last()),
{
    s.pop()
}

/// The mathematical value of a [`GraphComponent`].
#[verifier::ext_equal]
pub ghost struct GraphViewState {
    pub selected: int,
    pub percentage_left: int,
    pub percentage_right: int,
    pub diff_offset: int,
    pub help_toggled: bool,
    pub edit_mode: bool,
    pub filter_string: Seq<char>,
}

/// The state of the graph view: the row under the cursor, the horizontal
/// split between graph and detail panes, the scroll offset inside the
/// detail pane, and the help / filter-editing modes.
pub struct GraphComponent {
    pub selected: usize,
    pub percentage_left: u16,
    pub percentage_right: u16,
    pub diff_offset: usize,
    pub help_toggled: bool,
    pub edit_mode: bool,
    pub filter_string: String,
}

impl View for GraphComponent {
    type V = GraphViewState;

    open spec fn view(&self) -> GraphViewState {
        GraphViewState {
            selected: self.selected as int,
            percentage_left: self.percentage_left as int,
            percentage_right: self.percentage_right as int,
            diff_offset: self.diff_offset as int,
            help_toggled: self.help_toggled,
            edit_mode: self.edit_mode,
            filter_string: self.filter_string@,
        }
    }
}

/// Where the cursor moves one row down: forward, wrapping to the top past
/// the last row.
pub open spec fn step_down(selected: int, n: int) -> int {
    if selected >= n - 1 {
        0
    } else {
        selected + 1
    }
}

/// Where the cursor moves one row up: backward, wrapping to the bottom at
/// the first row.
pub open spec fn step_up(selected: int, n: int) -> int {
    if selected > 0 {
        selected - 1
    } else {
        n - 1
    }
}

/// Where the cursor moves a page (ten rows) down, wrapping to the top when
/// fewer than ten rows remain.
pub open spec fn step_page_down(selected: int, n: int) -> int {
    if n < 10 || selected >= n - 10 {
        0
    } else {
        selected + 10
    }
}

/// Where the cursor moves a page (ten rows) up, wrapping to the bottom from
/// the first ten rows.
pub open spec fn step_page_up(selected: int, n: int) -> int {
    if selected > 10 {
        selected - 10
    } else {
        n - 1
    }
}

/// The command-mode transition of the graph view on key `key` with `n` rows
/// shown: the new state and the action handed back to the caller.
pub open spec fn command_step(s: GraphViewState, key: UiKey, n: int) -> (GraphViewState, UiAction) {
    match key {
        UiKey::Char(c) => {
            if c == 'i' {
                (GraphViewState { edit_mode: true, ..s }, UiAction::Nothing)
            } else if c == 'u' {
                (s, UiAction::CycleStop { forward: true })
            } else if c == 'j' {
                if s.diff_offset < usize::MAX {
                    (GraphViewState { diff_offset: s.diff_offset + 1, ..s }, UiAction::Nothing)
                } else {
                    (s, UiAction::Nothing)
                }
            } else if c == 'k' {
                if s.diff_offset > 0 {
                    (GraphViewState { diff_offset: s.diff_offset - 1, ..s }, UiAction::Nothing)
                } else {
                    (s, UiAction::Nothing)
                }
            } else if c == '?' {
                (GraphViewState { help_toggled: !s.help_toggled, ..s }, UiAction::Nothing)
            } else {
                (s, UiAction::Nothing)
            }
        },
        UiKey::Tab => (s, UiAction::CycleStop { forward: true }),
        UiKey::BackTab => (s, UiAction::CycleStop { forward: false }),
        UiKey::Left => {
            if s.percentage_left > 0 {
                (
                    GraphViewState {
                        percentage_left: s.percentage_left - 1,
                        percentage_right: s.percentage_right + 1,
                        ..s
                    },
                    UiAction::Nothing,
                )
            } else {
                (s, UiAction::Nothing)
            }
        },
        UiKey::Right => {
            if s.percentage_right > 0 {
                (
                    GraphViewState {
                        percentage_left: s.percentage_left + 1,
                        percentage_right: s.percentage_right - 1,
                        ..s
                    },
                    UiAction::Nothing,
                )
            } else {
                (s, UiAction::Nothing)
            }
        },
        UiKey::Down => (
            GraphViewState { selected: step_down(s.selected, n), diff_offset: 0, ..s },
            UiAction::Nothing,
        ),
        UiKey::Up => (
            GraphViewState { selected: step_up(s.selected, n), diff_offset: 0, ..s },
            UiAction::Nothing,
        ),
        UiKey::PageDown => (
            GraphViewState { selected: step_page_down(s.selected, n), diff_offset: 0, ..s },
            UiAction::Nothing,
        ),
        UiKey::PageUp => (
            GraphViewState { selected: step_page_up(s.selected, n), diff_offset: 0, ..s },
            UiAction::Nothing,
        ),
        _ => (s, UiAction::Nothing),
    }
}

/// The filter-editing transition of the graph view on key `key`.
pub open spec fn edit_step(s: GraphViewState, key: UiKey) -> GraphViewState {
    match key {
        UiKey::Esc => GraphViewState { edit_mode: false, ..s },
        UiKey::Function(k) => {
            if k == 2 {
                GraphViewState { edit_mode: false, ..s }
            } else {
                s
            }
        },
        UiKey::Char(c) => GraphViewState { filter_string: s.filter_string.push(c), ..s },
        UiKey::Backspace => {
            if s.filter_string.len() > 0 {
                GraphViewState { filter_string: s.filter_string.drop_last(), ..s }
            } else {
                s
            }
        },
        _ => s,
    }
}

/// The full transition of the graph view: filter editing when edit mode is
/// on, command handling otherwise.
pub open spec fn event_step(s: GraphViewState, key: UiKey, n: int) -> (GraphViewState, UiAction) {
    if s.edit_mode {
        (edit_step(s, key), UiAction::Nothing)
    } else {
        command_step(s, key, n)
    }
}

impl GraphComponent {
    /// The pane split is sound: both halves together fill the width.
    pub open spec fn wf(self) -> bool {
        self.percentage_left + self.percentage_right == 100
    }

    /// A fresh graph view: cursor on the first row, an even split, command
    /// mode, no filter.
    pub fn new() -> (c: GraphComponent)
        ensures
            c.wf(),
            c@ == (GraphViewState {
                selected: 0,
                percentage_left: 50,
                percentage_right: 50,
                diff_offset: 0,
                help_toggled: false,
                edit_mode: false,
                filter_string: Seq::empty(),
            }),
    {
        let filter_string = String::new();
        GraphComponent {
            selected: 0,
            percentage_left: 50,
            percentage_right: 50,
            diff_offset: 0,
            help_toggled: false,
            edit_mode: false,
            filter_string,
        }
    }

    /// Handles a key in command mode over `nodes_len` displayed rows.
    pub fn command_mode_event(&mut self, key: UiKey, nodes_len: usize) -> (r: UiAction)
        requires
            old(self).wf(),
            nodes_len >= 1,
        ensures
            final(self).wf(),
            (final(self)@, r) == command_step(old(self)@, key, nodes_len as int),
    {
        match key {
            UiKey::Char(c) => {
                if c == 'i' {
                    self.edit_mode = true;
                    UiAction::Nothing
                } else if c == 'u' {
                    UiAction::CycleStop { forward: true }
                } else if c == 'j' {
                    if self.diff_offset < usize::MAX {
                        self.diff_offset = self.diff_offset + 1;
                    }
                    UiAction::Nothing
                } else if c == 'k' {
                    if self.diff_offset > 0 {
                        self.diff_offset = self.diff_offset - 1;
                    }
                    UiAction::Nothing
                } else if c == '?' {
                    self.help_toggled = !self.help_toggled;
                    UiAction::Nothing
                } else {
                    UiAction::Nothing
                }
            },
            UiKey::Tab => UiAction::CycleStop { forward: true },
            UiKey::BackTab => UiAction::CycleStop { forward: false },
            UiKey::Left => {
                if self.percentage_left > 0 {
                    self.percentage_left = self.percentage_left - 1;
                    self.percentage_right = self.percentage_right + 1;
                }
                UiAction::Nothing
            },
            UiKey::Right => {
                if self.percentage_right > 0 {
                    self.percentage_left = self.percentage_left + 1;
                    self.percentage_right = self.percentage_right - 1;
                }
                UiAction::Nothing
            },
            UiKey::Down => {
                if self.selected >= nodes_len - 1 {
                    self.selected = 0;
                } else {
                    self.selected = self.selected + 1;
                }
                self.diff_offset = 0;
                UiAction::Nothing
            },
            UiKey::Up => {
                if self.selected > 0 {
                    self.selected = self.selected - 1;
                } else {
                    self.selected = nodes_len - 1;
                }
                self.diff_offset = 0;
                UiAction::Nothing
            },
            UiKey::PageDown => {
                if nodes_len < 10 || self.selected >= nodes_len - 10 {
                    self.selected = 0;
                } else {
                    self.selected = self.selected + 10;
                }
                self.diff_offset = 0;
                UiAction::Nothing
            },
            UiKey::PageUp => {
                if self.selected > 10 {
                    self.selected = self.selected - 10;
                } else {
                    self.selected = nodes_len - 1;
                }
                self.diff_offset = 0;
                UiAction::Nothing
            },
            _ => UiAction::Nothing,
        }
    }

    /// Handles a key: filter editing when edit mode is on, command handling
    /// otherwise.
    pub fn event(&mut self, key: UiKey, nodes_len: usize) -> (r: UiAction)
        requires
            old(self).wf(),
            nodes_len >= 1,
        ensures
            final(self).wf(),
            (final(self)@, r) == event_step(old(self)@, key, nodes_len as int),
    {
        if self.edit_mode {
            match key {
                UiKey::Esc => {
                    self.edit_mode = false;
                },
                UiKey::Function(k) => {
                    if k == 2 {
                        self.edit_mode = false;
                    }
                },
                UiKey::Char(c) => {
                    push_char(&mut self.filter_string, c);
                },
                UiKey::Backspace => {
                    pop_char(&mut self.filter_string);
                },
                _ => {},
            }
            UiAction::Nothing
        } else {
            self.command_mode_event(key, nodes_len)
        }
    }
}

/// The position and size of a `width` by `height` box centred inside an
/// area of `area_width` by `area_height`: the box is clipped to the area,
/// and the remaining margin is split evenly.
pub fn centered_rect_absolute(width: u16, height: u16, area_width: u16, area_height: u16) -> (r: (
    u16,
    u16,
    u16,
    u16,
))
    ensures
        r.0 == (if width >= area_width {
            0u16
        } else {
            ((area_width - width) / 2) as u16
        }),
        r.1 == (if height >= area_height {
            0u16
        } else {
            ((area_height - height) / 2) as u16
        }),
        r.2 == (if width <= area_width {
            width
        } else {
            area_width
        }),
        r.3 == (if height <= area_height {
            height
        } else {
            area_height
        }),
{
    let x = if width >= area_width {
        0
    } else {
        (area_width - width) / 2
    };
    let y = if height >= area_height {
        0
    } else {
        (area_height - height) / 2
    };
    let w = if width <= area_width {
        width
    } else {
        area_width
    };
    let h = if height <= area_height {
        height
    } else {
        area_height
    };
    (x, y, w, h)
}

/// The state of the branches view.
pub struct BranchesComponent {
    pub paragraph_title: String,
}

impl BranchesComponent {
    /// A fresh branches view.
    pub fn new() -> (c: BranchesComponent)
        ensures
            c.paragraph_title@ == "Branches title"@,
    {
        let paragraph_title = String::from_str("Branches title");
        BranchesComponent { paragraph_title }
    }

    /// Handles a key in the branches view: the tab keys cycle the stop
    /// condition, everything else does nothing.
    pub fn event(&mut self, key: UiKey) -> (r: UiAction)
        ensures
            *final(self) == *old(self),
            r == match key {
                UiKey::Tab => UiAction::CycleStop { forward: true },
                UiKey::BackTab => UiAction::CycleStop { forward: false },
                _ => UiAction::Nothing,
            },
    {
        match key {
            UiKey::Tab => UiAction::CycleStop { forward: true },
            UiKey::BackTab => UiAction::CycleStop { forward: false },
            _ => UiAction::Nothing,
        }
    }
}

} // verus!
