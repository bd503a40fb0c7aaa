//! What happens to the terminal interface, and what it does about it.

use vstd::prelude::*;

use crate::transaction::Transaction;
use crate::tui::app::{App, AppView, Direction, Focus};

verus! {

/// A key, as far as the interface tells keys apart.
#[derive(Debug, Clone, Copy, PartialEq, Eq, Structural)]
pub enum KeyCode {
    Up,
    Down,
    PageUp,
    PageDown,
    Tab,
    Char(char),
    Other,
}

/// A key that was pressed.
#[derive(Debug, Clone, Copy, PartialEq, Eq, Structural)]
pub struct KeyEvent {
    pub code: KeyCode,
    /// Whether the control key was held.
    pub control: bool,
}

/// What happens to the interface.
pub enum TuiEvent {
    NewTransaction(Transaction),
    Key(KeyEvent),
    Resize,
    Tick,
}

/// What a key asks for.
#[derive(Debug, Clone, Copy, PartialEq, Eq, Structural)]
pub enum Action {
    Quit,
    Up,
    Down,
    ToggleFocus,
    PageUp,
    PageDown,
}

/// What a key asks for.
pub open spec fn action_for(key: KeyEvent) -> Option<Action> {
    match key.code {
        KeyCode::Char(c) => if c == 'q' || c == 'c' && key.control {
            Some(Action::Quit)
        } else if c == 'k' {
            Some(Action::Up)
        } else if c == 'j' {
            Some(Action::Down)
        } else {
            None
        },
        KeyCode::Up => Some(Action::Up),
        KeyCode::Down => Some(Action::Down),
        KeyCode::Tab => Some(Action::ToggleFocus),
        KeyCode::PageUp => Some(Action::PageUp),
        KeyCode::PageDown => Some(Action::PageDown),
        KeyCode::Other => None,
    }
}

/// What a key asks for.
pub fn key_action(key: &KeyEvent) -> (r: Option<Action>)
    ensures
        r == action_for(*key),
{
    match key.code {
        KeyCode::Char(c) => {
            if c == 'q' {
                Some(Action::Quit)
            } else if c == 'c' && key.control {
                Some(Action::Quit)
            } else if c == 'k' {
                Some(Action::Up)
            } else if c == 'j' {
                Some(Action::Down)
            } else {
                None
            }
        },
        KeyCode::Up => Some(Action::Up),
        KeyCode::Down => Some(Action::Down),
        KeyCode::Tab => Some(Action::ToggleFocus),
        KeyCode::PageUp => Some(Action::PageUp),
        KeyCode::PageDown => Some(Action::PageDown),
        KeyCode::Other => None,
    }
}

/// How many rows or lines a page is.
pub const PAGE: usize = 10;

impl AppView {
    /// The state after one step in the panel that has the keys.
    pub open spec fn stepped(self, dir: Direction) -> AppView {
        match self.focus {
            Focus::List => self.moved(dir),
            Focus::Detail => self.scrolled(dir),
        }
    }

    /// Whether the rows that `action` goes through can be counted.
    pub open spec fn can_act(self, action: Action) -> bool {
        match action {
            Action::Down => self.focus == Focus::List ==> self.can_move(Direction::Down),
            Action::PageDown => self.focus == Focus::List ==> self.can_move(Direction::Down),
            _ => true,
        }
    }

    /// Whether the rows that `event` asks about can be counted.
    pub open spec fn can_take(self, event: TuiEvent) -> bool {
        match event {
            TuiEvent::NewTransaction(_) => self.selected < usize::MAX,
            TuiEvent::Key(key) => match action_for(key) {
                Some(action) => self.can_act(action),
                None => true,
            },
            TuiEvent::Resize => true,
            TuiEvent::Tick => true,
        }
    }

    /// The state after `n` steps.
    pub open spec fn stepped_by(self, dir: Direction, n: nat) -> AppView
        decreases n,
    {
        if n == 0 {
            self
        } else {
            self.stepped_by(dir, (n - 1) as nat).stepped(dir)
        }
    }

    /// The state once `action` was done.
    pub open spec fn acted(self, action: Action) -> AppView {
        match action {
            Action::Quit => AppView { should_quit: true, ..self },
            Action::Up => self.stepped(Direction::Up),
            Action::Down => self.stepped(Direction::Down),
            Action::ToggleFocus => self.toggled(),
            Action::PageUp => self.stepped_by(Direction::Up, PAGE as nat),
            Action::PageDown => self.stepped_by(Direction::Down, PAGE as nat),
        }
    }

    /// The state once `event` was taken in.
    pub open spec fn after(self, event: TuiEvent) -> AppView {
        match event {
            TuiEvent::NewTransaction(tx) => self.pushed(tx),
            TuiEvent::Key(key) => match action_for(key) {
                Some(action) => self.acted(action),
                None => self,
            },
            TuiEvent::Resize => self,
            TuiEvent::Tick => self,
        }
    }
}

fn step(app: &mut App, dir: Direction)
    requires
        old(app)@.focus == Focus::List ==> old(app)@.can_move(dir),
    ensures
        final(app)@ == old(app)@.stepped(dir),
        final(app)@.focus == old(app)@.focus,
        final(app)@.focus == Focus::List ==> final(app)@.can_move(dir),
{
    assert(app.transactions.len() <= usize::MAX);
    match app.focus {
        Focus::List => app.move_selection(dir),
        Focus::Detail => app.scroll_detail(dir),
    }
}

fn step_page(app: &mut App, dir: Direction)
    requires
        old(app)@.focus == Focus::List ==> old(app)@.can_move(dir),
    ensures
        final(app)@ == old(app)@.stepped_by(dir, PAGE as nat),
{
    let ghost start = app@;
    let mut i: usize = 0;
    while i < PAGE
        invariant
            i <= PAGE,
            app@.focus == Focus::List ==> app@.can_move(dir),
            app@ == start.stepped_by(dir, i as nat),
        decreases PAGE - i,
    {
        step(app, dir);
        i += 1;
    }
}

/// Does what a key asks for, in the panel that has the keys.
pub fn handle_action(app: &mut App, action: Action)
    requires
        old(app)@.can_act(action),
    ensures
        final(app)@ == old(app)@.acted(action),
{
    match action {
        Action::Quit => {
            app.should_quit = true;
        },
        Action::Up => step(app, Direction::Up),
        Action::Down => step(app, Direction::Down),
        Action::ToggleFocus => app.toggle_focus(),
        Action::PageUp => step_page(app, Direction::Up),
        Action::PageDown => step_page(app, Direction::Down),
    }
}

/// Takes in what happened.
pub fn handle_event(app: &mut App, event: TuiEvent)
    requires
        old(app)@.can_take(event),
    ensures
        final(app)@ == old(app)@.after(event),
{
    match event {
        TuiEvent::NewTransaction(tx) => app.push(tx),
        TuiEvent::Key(key) => {
            if let Some(action) = key_action(&key) {
                handle_action(app, action);
            }
        },
        TuiEvent::Resize => {},
        TuiEvent::Tick => {},
    }
}

// ---------------------------------------------------------------------------
// Laws
// ---------------------------------------------------------------------------

/// Steps in a list of rows move the selection by as many rows, as far as there
/// are rows, and change nothing else but the scroll position.
proof fn lemma_list_steps(app: AppView, dir: Direction, n: nat)
    requires
        app.well_formed(),
        app.focus == Focus::List,
    ensures
        ({
            let next = app.stepped_by(dir, n);
            let last = app.transactions.len() - 1;
            &&& next.transactions == app.transactions
            &&& next.focus == app.focus
            &&& next.should_quit == app.should_quit
            &&& next.selected == match dir {
                Direction::Up => if app.selected < n {
                    0
                } else {
                    app.selected - n
                },
                Direction::Down => if app.selected + n <= last {
                    app.selected + n
                } else if last < 0 {
                    0
                } else {
                    last
                },
            }
            &&& next.detail_scroll == if next.selected == app.selected {
                app.detail_scroll
            } else {
                0
            }
        }),
    decreases n,
{
    if n > 0 {
        lemma_list_steps(app, dir, (n - 1) as nat);
    }
}

proof fn lemma_detail_steps(app: AppView, dir: Direction, n: nat)
    requires
        app.well_formed(),
        app.focus == Focus::Detail,
    ensures
        app.stepped_by(dir, n) == (AppView {
            detail_scroll: match dir {
                Direction::Up => if app.detail_scroll < n {
                    0
                } else {
                    app.detail_scroll - n
                },
                Direction::Down => if app.detail_scroll + n <= u16::MAX {
                    app.detail_scroll + n
                } else {
                    u16::MAX as int
                },
            },
            ..app
        }),
    decreases n,
{
    if n > 0 {
        lemma_detail_steps(app, dir, (n - 1) as nat);
    }
}

/// A page is ten rows of the list, as far as there are rows.
pub proof fn page_jumps_ten_rows(app: AppView)
    requires
        app.well_formed(),
        app.focus == Focus::List,
    ensures
        app.acted(Action::PageUp).selected == if app.selected < 10 {
            0
        } else {
            app.selected - 10
        },
        app.acted(Action::PageDown).selected == if app.selected + 10 < app.transactions.len() {
            app.selected + 10
        } else if app.transactions.len() == 0 {
            0
        } else {
            app.transactions.len() - 1
        },
{
    lemma_list_steps(app, Direction::Up, PAGE as nat);
    lemma_list_steps(app, Direction::Down, PAGE as nat);
}

/// With the keys on the detail panel a page is ten of its lines.
pub proof fn page_scrolls_ten_lines(app: AppView)
    requires
        app.well_formed(),
        app.focus == Focus::Detail,
    ensures
        app.acted(Action::PageUp) == (AppView {
            detail_scroll: if app.detail_scroll < 10 {
                0
            } else {
                app.detail_scroll - 10
            },
            ..app
        }),
        app.acted(Action::PageDown) == (AppView {
            detail_scroll: if app.detail_scroll + 10 <= u16::MAX {
                app.detail_scroll + 10
            } else {
                u16::MAX as int
            },
            ..app
        }),
{
    lemma_detail_steps(app, Direction::Up, PAGE as nat);
    lemma_detail_steps(app, Direction::Down, PAGE as nat);
}

/// Whatever happens, the selection stays valid, no transaction is lost or
/// reordered, and the interface ends only when it is asked to.
pub proof fn events_keep_what_was_captured(app: AppView, event: TuiEvent)
    requires
        app.well_formed(),
    ensures
        ({
            let next = app.after(event);
            &&& next.well_formed()
            &&& next.transactions == match event {
                TuiEvent::NewTransaction(tx) => app.transactions.push(tx),
                _ => app.transactions,
            }
            &&& next.should_quit <==> app.should_quit || (event matches TuiEvent::Key(key)
                && action_for(key) == Some(Action::Quit))
        }),
{
    match app.focus {
        Focus::List => {
            lemma_list_steps(app, Direction::Up, PAGE as nat);
            lemma_list_steps(app, Direction::Down, PAGE as nat);
        },
        Focus::Detail => {
            lemma_detail_steps(app, Direction::Up, PAGE as nat);
            lemma_detail_steps(app, Direction::Down, PAGE as nat);
        },
    }
}

} // verus!
