use crate::color::Resolution;
use vstd::prelude::*;

verus! {

/// A key press as the menu sees it.
#[derive(Clone, Copy, PartialEq, Eq, Structural, Debug)]
pub enum Key {
    /// A printable character; a carriage return commits the choice.
    Printable(char),
    Up,
    Down,
    Escape,
    /// Any other special key.
    OtherSpecial,
}

/// Where a selection stands.
#[derive(Clone, Copy, PartialEq, Eq, Structural, Debug)]
pub enum MenuState {
    /// Still choosing, with the cursor on the given entry.
    Choosing(usize),
    /// The entry at the given index was chosen.
    Committed(usize),
    /// The operator left the menu without choosing.
    Cancelled,
}

/// The key that commits the entry under the cursor.
pub const COMMIT_KEY: char = '\r';

/// Entries shown at once by the resolution picker.
pub const RESOLUTION_WINDOW: usize = 5;

/// The state after `key` in a menu of `n` entries. Terminal states absorb
/// every key.
pub open spec fn next_state(n: nat, s: MenuState, key: Key) -> MenuState {
    match s {
        MenuState::Choosing(c) => match key {
            Key::Up => MenuState::Choosing(((c + n - 1) % (n as int)) as usize),
            Key::Down => MenuState::Choosing(((c + 1) % (n as int)) as usize),
            Key::Escape => MenuState::Cancelled,
            Key::Printable(ch) => if ch == COMMIT_KEY {
                MenuState::Committed(c)
            } else {
                s
            },
            Key::OtherSpecial => s,
        },
        _ => s,
    }
}

/// The state after each key of `keys` in turn.
pub open spec fn run_keys(n: nat, s: MenuState, keys: Seq<Key>) -> MenuState
    decreases keys.len(),
{
    if keys.len() == 0 {
        s
    } else {
        next_state(n, run_keys(n, s, keys.drop_last()), keys.last())
    }
}

pub struct MenuView {
    pub len: nat,
    pub state: MenuState,
}

impl MenuView {
    /// The list is not empty and every index in the state is one of its entries.
    pub open spec fn wf(self) -> bool {
        &&& self.len > 0
        &&& match self.state {
            MenuState::Choosing(c) => c < self.len,
            MenuState::Committed(i) => i < self.len,
            MenuState::Cancelled => true,
        }
    }
}

/// A cyclic selection over a non-empty list of entries, driven one key at a time.
pub struct SelectionMenu {
    len: usize,
    state: MenuState,
}

impl View for SelectionMenu {
    type V = MenuView;

    closed spec fn view(&self) -> MenuView {
        MenuView { len: self.len as nat, state: self.state }
    }
}

impl SelectionMenu {
    /// A menu over `len` entries with the cursor on the first.
    pub fn new(len: usize) -> (m: SelectionMenu)
        requires
            len > 0,
        ensures
            m@.len == len,
            m@.state == MenuState::Choosing(0),
            m@.wf(),
    {
        SelectionMenu { len, state: MenuState::Choosing(0) }
    }

    pub fn len(&self) -> (n: usize)
        ensures
            n == self@.len,
    {
        self.len
    }

    pub fn state(&self) -> (s: MenuState)
        ensures
            s == self@.state,
    {
        self.state
    }

    /// Applies one key press; says whether the visible list has to be drawn again,
    /// which is so exactly when the cursor was moved.
    pub fn handle_key(&mut self, key: Key) -> (redraw: bool)
        requires
            old(self)@.wf(),
        ensures
            final(self)@.len == old(self)@.len,
            final(self)@.state == next_state(old(self)@.len, old(self)@.state, key),
            final(self)@.wf(),
            redraw == (old(self)@.state is Choosing && (key == Key::Up || key == Key::Down)),
    {
        match self.state {
            MenuState::Choosing(c) => match key {
                Key::Up => {
                    let next = if c == 0 { self.len - 1 } else { c - 1 };
                    proof {
                        let n = self.len as int;
                        if c == 0 {
                            assert((c + n - 1) % n == n - 1) by (nonlinear_arith) requires c == 0, n > 0;
                        } else {
                            assert((c + n - 1) % n == c - 1) by (nonlinear_arith) requires 0 < c < n;
                        }
                    }
                    self.state = MenuState::Choosing(next);
                    true
                },
                Key::Down => {
                    let next = if c + 1 == self.len { 0 } else { c + 1 };
                    proof {
                        let n = self.len as int;
                        if c + 1 == n {
                            assert((c + 1) % n == 0) by (nonlinear_arith) requires c + 1 == n;
                        } else {
                            assert((c + 1) % n == c + 1) by (nonlinear_arith) requires 0 <= c, c + 1 < n;
                        }
                    }
                    self.state = MenuState::Choosing(next);
                    true
                },
                Key::Escape => {
                    self.state = MenuState::Cancelled;
                    false
                },
                Key::Printable(ch) => {
                    if ch == COMMIT_KEY {
                        self.state = MenuState::Committed(c);
                    }
                    false
                },
                Key::OtherSpecial => false,
            },
            _ => false,
        }
    }

    /// The chosen entry, once the menu has been committed.
    pub fn committed(&self) -> (r: Option<usize>)
        ensures
            r == (match self@.state {
                MenuState::Committed(i) => Some(i),
                _ => None,
            }),
    {
        match self.state {
            MenuState::Committed(i) => Some(i),
            _ => None,
        }
    }
}

/// The entry shown on row `row` of a window of `shown` rows centred on `cursor`
/// in a list of `n`.
pub open spec fn window_entry(n: nat, cursor: int, shown: nat, row: int) -> int {
    (cursor - (shown / 2) as int + row) % (n as int)
}

/// The entries shown by a scrolling window of at most `window` rows over `n`
/// entries, centred on `cursor`: the middle row (index `shown / 2`) holds the
/// cursor, and the rows wrap around the ends of the list.
pub fn visible_window(n: usize, cursor: usize, window: usize) -> (rows: Vec<usize>)
    requires
        cursor < n,
    ensures
        rows@.len() == (if window < n { window } else { n }),
        forall|i: int| 0 <= i < rows@.len() ==> rows@[i] == window_entry(n as nat, cursor as int, rows@.len(), i),
        rows@.len() > 0 ==> rows@[(rows@.len() / 2) as int] == cursor,
{
    let shown = if window < n { window } else { n };
    let half = shown / 2;
    let top = if cursor >= half { cursor - half } else { cursor + (n - half) };
    proof {
        let nn = n as int;
        assert(top == (cursor - half) % nn) by (nonlinear_arith)
            requires 0 <= cursor < nn, 0 <= half <= nn,
                top == (if cursor >= half { cursor - half } else { cursor + (nn - half) });
    }
    let mut rows: Vec<usize> = Vec::new();
    let mut i: usize = 0;
    while i < shown
        invariant
            shown <= n,
            half == shown / 2,
            top < n,
            top == (cursor - half) % (n as int),
            i <= shown,
            rows@.len() == i,
            forall|j: int| 0 <= j < i ==> rows@[j] == window_entry(n as nat, cursor as int, shown as nat, j),
        decreases shown - i,
    {
        let entry = if i < n - top { top + i } else { i - (n - top) };
        proof {
            let nn = n as int;
            assert(entry == (cursor - half + i) % nn) by (nonlinear_arith)
                requires 0 <= top < nn, top == (cursor - half) % nn, 0 <= i < nn,
                    entry == (if i < nn - top { top + i } else { i - (nn - top) });
        }
        rows.push(entry);
        i += 1;
    }
    proof {
        if shown > 0 {
            let nn = n as int;
            assert((cursor - half + half) % nn == cursor) by (nonlinear_arith)
                requires 0 <= cursor < nn;
        }
    }
    rows
}

/// How a dialog lays out its list.
#[derive(Clone, Copy, PartialEq, Eq, Structural, Debug)]
pub enum RowLayout {
    /// A scrolling window of at most this many rows, centred on the cursor.
    Window(usize),
    /// Every entry in its own place.
    Fixed,
}

/// The entries to show, top to bottom, and the row to highlight, which is
/// the row of the cursor.
pub fn rows_for(n: usize, cursor: usize, layout: RowLayout) -> (r: (Vec<usize>, usize))
    requires
        cursor < n,
    ensures
        r.0@.len() > 0 ==> r.1 < r.0@.len() && r.0@[r.1 as int] == cursor,
        match layout {
            RowLayout::Window(w) => r.0@.len() == (if w < n { w } else { n })
                && r.1 == r.0@.len() / 2
                && forall|i: int| 0 <= i < r.0@.len() ==> r.0@[i] == window_entry(n as nat, cursor as int, r.0@.len(), i),
            RowLayout::Fixed => r.0@.len() == n && r.1 == cursor
                && forall|i: int| 0 <= i < n ==> r.0@[i] == i,
        },
{
    match layout {
        RowLayout::Window(w) => {
            let rows = visible_window(n, cursor, w);
            let mid = rows.len() / 2;
            (rows, mid)
        },
        RowLayout::Fixed => {
            let mut rows: Vec<usize> = Vec::new();
            let mut i: usize = 0;
            while i < n
                invariant
                    i <= n,
                    rows@.len() == i,
                    forall|j: int| 0 <= j < i ==> rows@[j] == j,
                decreases n - i,
            {
                rows.push(i);
                i += 1;
            }
            (rows, cursor)
        },
    }
}

/// What the operator asked the machine to do from the power dialog.
#[derive(Clone, Copy, PartialEq, Eq, Structural, Debug)]
pub enum PowerAction {
    Continue,
    Reboot,
    Shutdown,
}

/// Number of entries of the power dialog: continue, reboot, shut down.
pub const POWER_ENTRIES: usize = 3;

/// The action for the way the power dialog ended: its second entry reboots,
/// its third shuts down, and committing the first or cancelling continues.
pub fn power_action(outcome: MenuState) -> (a: PowerAction)
    ensures
        a == (match outcome {
            MenuState::Committed(1) => PowerAction::Reboot,
            MenuState::Committed(2) => PowerAction::Shutdown,
            _ => PowerAction::Continue,
        }),
{
    match outcome {
        MenuState::Committed(1) => PowerAction::Reboot,
        MenuState::Committed(2) => PowerAction::Shutdown,
        _ => PowerAction::Continue,
    }
}

/// The first mode of `modes` with the resolution `wanted`, if any.
pub fn find_mode(modes: &Vec<Resolution>, wanted: Resolution) -> (r: Option<usize>)
    ensures
        r matches Some(i) ==> i < modes@.len() && modes@[i as int] == wanted
            && forall|j: int| 0 <= j < i ==> modes@[j] != wanted,
        r is None ==> forall|j: int| 0 <= j < modes@.len() ==> modes@[j] != wanted,
{
    let mut i: usize = 0;
    while i < modes.len()
        invariant
            i <= modes@.len(),
            forall|j: int| 0 <= j < i ==> modes@[j] != wanted,
        decreases modes@.len() - i,
    {
        if modes[i] == wanted {
            return Some(i);
        }
        i += 1;
    }
    None
}

} // verus!
