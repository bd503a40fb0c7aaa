//! The state of the terminal interface.

use vstd::prelude::*;

use crate::transaction::Transaction;

verus! {

/// Which way to move.
#[derive(Debug, Clone, Copy, PartialEq, Eq, Structural)]
pub enum Direction {
    Up,
    Down,
}

/// Which panel has the keys.
#[derive(Debug, Clone, Copy, PartialEq, Eq, Structural)]
pub enum Focus {
    List,
    Detail,
}

/// The state of the terminal interface.
pub struct App {
    pub transactions: Vec<Transaction>,
    pub selected: usize,
    pub detail_scroll: u16,
    pub focus: Focus,
    pub should_quit: bool,
}

/// What an [`App`] holds.
pub struct AppView {
    pub transactions: Seq<Transaction>,
    pub selected: int,
    pub detail_scroll: int,
    pub focus: Focus,
    pub should_quit: bool,
}

impl View for App {
    type V = AppView;

    open spec fn view(&self) -> AppView {
        AppView {
            transactions: self.transactions@,
            selected: self.selected as int,
            detail_scroll: self.detail_scroll as int,
            focus: self.focus,
            should_quit: self.should_quit,
        }
    }
}

impl AppView {
    /// Whether the selection is a row of the list, or the first one if there
    /// are no rows, and the scroll position can be held.
    pub open spec fn well_formed(self) -> bool {
        &&& 0 <= self.selected
        &&& self.selected < self.transactions.len() || self.selected == 0
        &&& 0 <= self.detail_scroll <= u16::MAX
    }

    /// Whether the selection is the last row, or there are no rows.
    pub open spec fn at_end(self) -> bool {
        self.selected + 1 >= self.transactions.len()
    }

    /// The state at the start.
    pub open spec fn initial() -> AppView {
        AppView {
            transactions: seq![],
            selected: 0,
            detail_scroll: 0,
            focus: Focus::List,
            should_quit: false,
        }
    }

    /// The state once `tx` has come in: a selection at the end follows.
    pub open spec fn pushed(self, tx: Transaction) -> AppView {
        let transactions = self.transactions.push(tx);
        if self.at_end() && transactions.len() > 1 {
            AppView { transactions, selected: transactions.len() - 1, detail_scroll: 0, ..self }
        } else {
            AppView { transactions, ..self }
        }
    }

    /// Whether the row below the selection can be counted, where it is asked for.
    pub open spec fn can_move(self, dir: Direction) -> bool {
        dir == Direction::Down && self.transactions.len() > 0 ==> self.selected < usize::MAX
    }

    /// The state once the selection has moved by one row, if there is one to
    /// move to; the detail panel is then shown from its top.
    pub open spec fn moved(self, dir: Direction) -> AppView {
        let target = match dir {
            Direction::Up => self.selected - 1,
            Direction::Down => self.selected + 1,
        };
        if self.transactions.len() > 0 && (match dir {
            Direction::Up => target >= 0,
            Direction::Down => target < self.transactions.len(),
        }) {
            AppView { selected: target, detail_scroll: 0, ..self }
        } else {
            self
        }
    }

    /// The state once the detail panel has scrolled by one line, as far as the
    /// position can be held.
    pub open spec fn scrolled(self, dir: Direction) -> AppView {
        match dir {
            Direction::Up => AppView {
                detail_scroll: if self.detail_scroll > 0 {
                    self.detail_scroll - 1
                } else {
                    0
                },
                ..self
            },
            Direction::Down => AppView {
                detail_scroll: if self.detail_scroll < u16::MAX {
                    self.detail_scroll + 1
                } else {
                    u16::MAX as int
                },
                ..self
            },
        }
    }

    /// The state once the other panel has the keys.
    pub open spec fn toggled(self) -> AppView {
        AppView {
            focus: match self.focus {
                Focus::List => Focus::Detail,
                Focus::Detail => Focus::List,
            },
            detail_scroll: 0,
            ..self
        }
    }

    /// The selected transaction.
    pub open spec fn chosen(self) -> Option<Transaction> {
        if self.selected < self.transactions.len() {
            Some(self.transactions[self.selected])
        } else {
            None
        }
    }
}

impl App {
    /// An empty list, with the keys on it.
    pub fn new() -> (app: App)
        ensures
            app@ == AppView::initial(),
    {
        let app = App {
            transactions: Vec::new(),
            selected: 0,
            detail_scroll: 0,
            focus: Focus::List,
            should_quit: false,
        };
        assert(app@.transactions =~= AppView::initial().transactions);
        app
    }

    /// Adds a transaction. A selection at the end of the list follows it.
    pub fn push(&mut self, tx: Transaction)
        requires
            old(self).selected < usize::MAX,
        ensures
            final(self)@ == old(self)@.pushed(tx),
    {
        let len: usize = self.transactions.len();
        let was_at_end = self.selected + 1 >= if len > 1 {
            len
        } else {
            1
        };
        self.transactions.push(tx);
        if was_at_end && self.transactions.len() > 1 {
            self.selected = self.transactions.len() - 1;
            self.detail_scroll = 0;
        }
    }

    /// Moves the selection by one row, if there is one to move to.
    pub fn move_selection(&mut self, dir: Direction)
        requires
            old(self)@.can_move(dir),
        ensures
            final(self)@ == old(self)@.moved(dir),
    {
        let len: usize = self.transactions.len();
        if len == 0 {
            return;
        }
        match dir {
            Direction::Up => {
                if self.selected > 0 {
                    self.selected = self.selected - 1;
                    self.detail_scroll = 0;
                }
            },
            Direction::Down => {
                if self.selected + 1 < len {
                    self.selected = self.selected + 1;
                    self.detail_scroll = 0;
                }
            },
        }
    }

    /// Scrolls the detail panel by one line.
    pub fn scroll_detail(&mut self, dir: Direction)
        ensures
            final(self)@ == old(self)@.scrolled(dir),
    {
        match dir {
            Direction::Up => {
                self.detail_scroll = self.detail_scroll.saturating_sub(1);
            },
            Direction::Down => {
                self.detail_scroll = self.detail_scroll.saturating_add(1);
            },
        }
    }

    /// Gives the keys to the other panel.
    pub fn toggle_focus(&mut self)
        ensures
            final(self)@ == old(self)@.toggled(),
    {
        self.focus = match self.focus {
            Focus::List => Focus::Detail,
            Focus::Detail => Focus::List,
        };
        self.detail_scroll = 0;
    }

    /// The selected transaction.
    pub fn selected_transaction(&self) -> (r: Option<&Transaction>)
        ensures
            match r {
                Some(tx) => self@.chosen() == Some(*tx),
                None => self@.chosen() is None,
            },
    {
        if self.selected < self.transactions.len() {
            Some(&self.transactions[self.selected])
        } else {
            None
        }
    }
}

impl Default for App {
    fn default() -> (app: App)
        ensures
            app@ == AppView::initial(),
    {
        App::new()
    }
}

// ---------------------------------------------------------------------------
// Laws
// ---------------------------------------------------------------------------

/// The initial state is well-formed, and every operation keeps it so.
pub proof fn operations_keep_the_selection_valid(app: AppView, tx: Transaction, dir: Direction)
    requires
        app.well_formed(),
    ensures
        AppView::initial().well_formed(),
        app.pushed(tx).well_formed(),
        app.moved(dir).well_formed(),
        app.scrolled(dir).well_formed(),
        app.toggled().well_formed(),
{
}

/// A selection at the end of the list stays at its end when a transaction comes
/// in, and shows that transaction; any other stays where it is and shows what
/// it showed.
pub proof fn selection_follows_the_end(app: AppView, tx: Transaction)
    requires
        app.well_formed(),
    ensures
        ({
            let next = app.pushed(tx);
            &&& next.transactions == app.transactions.push(tx)
            &&& app.at_end() ==> next.at_end() && next.chosen() == Some(tx)
            &&& !app.at_end() ==> next.selected == app.selected && next.chosen() == app.chosen()
                && next.detail_scroll == app.detail_scroll
        }),
{
}

/// Moving back undoes a move, except that the detail panel is shown from its
/// top.
pub proof fn moves_undo_each_other(app: AppView)
    requires
        app.well_formed(),
    ensures
        !app.at_end() ==> app.moved(Direction::Down).moved(Direction::Up) == (AppView {
            detail_scroll: 0,
            ..app
        }),
        app.selected > 0 ==> app.moved(Direction::Up).moved(Direction::Down) == (AppView {
            detail_scroll: 0,
            ..app
        }),
        app.at_end() ==> app.moved(Direction::Down) == app,
        app.selected == 0 ==> app.moved(Direction::Up) == app,
{
}

/// Giving the keys away and back changes nothing but the scroll position.
pub proof fn toggling_twice_restores_the_focus(app: AppView)
    ensures
        app.toggled().focus != app.focus,
        app.toggled().toggled() == (AppView { detail_scroll: 0, ..app }),
{
}

} // verus!
