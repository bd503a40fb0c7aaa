//! What holds of the terminal interface under keys and events.

use vstd::prelude::*;

use crate::transaction::Transaction;
use crate::tui::app::{AppView, Direction, Focus};
use crate::tui::event::{action_for, Action, KeyCode, KeyEvent, TuiEvent};

verus! {

/// The interface starts with nothing captured, the first row selected, the detail
/// panel at its top and the keys on the list.
pub proof fn the_interface_starts_empty()
    ensures
        AppView::initial().transactions == Seq::<Transaction>::empty(),
        AppView::initial().selected == 0,
        AppView::initial().detail_scroll == 0,
        AppView::initial().focus == Focus::List,
        !AppView::initial().should_quit,
        AppView::initial().chosen() is None,
{
}

/// What is shown in detail is the transaction of the selected row.
pub proof fn the_selected_row_is_shown(app: AppView)
    requires
        0 <= app.selected,
    ensures
        app.selected < app.transactions.len() ==> app.chosen() == Some(
            app.transactions[app.selected],
        ),
        app.selected >= app.transactions.len() ==> app.chosen() is None,
        app.at_end() <==> app.selected >= app.transactions.len() - 1,
{
}

/// A step in the list goes to the next row, if there is one, and shows it from its
/// top; it changes nothing else.
pub proof fn steps_go_to_the_next_row(app: AppView)
    requires
        0 <= app.selected,
    ensures
        app.selected + 1 < app.transactions.len() ==> app.moved(Direction::Down) == (AppView {
            transactions: app.transactions,
            selected: app.selected + 1,
            detail_scroll: 0,
            focus: app.focus,
            should_quit: app.should_quit,
        }),
        app.selected + 1 >= app.transactions.len() ==> app.moved(Direction::Down) == app,
        app.selected > 0 && app.transactions.len() > 0 ==> app.moved(Direction::Up) == (AppView {
            transactions: app.transactions,
            selected: app.selected - 1,
            detail_scroll: 0,
            focus: app.focus,
            should_quit: app.should_quit,
        }),
        app.selected == 0 || app.transactions.len() == 0 ==> app.moved(Direction::Up) == app,
{
}

/// A step in the detail panel scrolls it by one line, down to where the position
/// can still be held and up to its top; it changes nothing else.
pub proof fn steps_scroll_by_one_line(app: AppView)
    requires
        0 <= app.detail_scroll <= 65535,
    ensures
        ({
            let (down, up) = (app.scrolled(Direction::Down), app.scrolled(Direction::Up));
            &&& app.detail_scroll < 65535 ==> down.detail_scroll == app.detail_scroll + 1
            &&& app.detail_scroll == 65535 ==> down.detail_scroll == 65535
            &&& app.detail_scroll > 0 ==> up.detail_scroll == app.detail_scroll - 1
            &&& app.detail_scroll == 0 ==> up.detail_scroll == 0
            &&& down == (AppView { detail_scroll: down.detail_scroll, ..app })
            &&& up == (AppView { detail_scroll: up.detail_scroll, ..app })
        }),
{
}

/// The keys go to the panel that has them: the arrows and the letters `j` and `k`
/// move by one, the page keys by ten, the tab gives the keys to the other panel,
/// and `q`, or `c` with control, ends. No other key does anything.
pub proof fn keys_have_their_meaning(key: KeyEvent)
    ensures
        key.code == KeyCode::Up ==> action_for(key) == Some(Action::Up),
        key.code == KeyCode::Char('k') ==> action_for(key) == Some(Action::Up),
        key.code == KeyCode::Down ==> action_for(key) == Some(Action::Down),
        key.code == KeyCode::Char('j') ==> action_for(key) == Some(Action::Down),
        key.code == KeyCode::PageUp ==> action_for(key) == Some(Action::PageUp),
        key.code == KeyCode::PageDown ==> action_for(key) == Some(Action::PageDown),
        key.code == KeyCode::Tab ==> action_for(key) == Some(Action::ToggleFocus),
        key.code == KeyCode::Char('q') ==> action_for(key) == Some(Action::Quit),
        key.code == KeyCode::Char('c') && key.control ==> action_for(key) == Some(Action::Quit),
        key.code == KeyCode::Char('c') && !key.control ==> action_for(key) is None,
        key.code == KeyCode::Other ==> action_for(key) is None,
        key.code matches KeyCode::Char(c) ==> c != 'k' && c != 'j' && c != 'q' && c != 'c'
            ==> action_for(key) is None,
{
}

/// What a key asks for is done in the panel that has the keys.
pub proof fn actions_reach_the_panel_with_the_keys(app: AppView)
    ensures
        app.focus == Focus::List ==> app.acted(Action::Up) == app.moved(Direction::Up),
        app.focus == Focus::List ==> app.acted(Action::Down) == app.moved(Direction::Down),
        app.focus == Focus::Detail ==> app.acted(Action::Up) == app.scrolled(Direction::Up),
        app.focus == Focus::Detail ==> app.acted(Action::Down) == app.scrolled(Direction::Down),
        app.acted(Action::ToggleFocus).focus == if app.focus == Focus::List {
            Focus::Detail
        } else {
            Focus::List
        },
        app.acted(Action::ToggleFocus).detail_scroll == 0,
        app.acted(Action::ToggleFocus).selected == app.selected,
        app.acted(Action::ToggleFocus).transactions == app.transactions,
        app.acted(Action::Quit) == (AppView {
            transactions: app.transactions,
            selected: app.selected,
            detail_scroll: app.detail_scroll,
            focus: app.focus,
            should_quit: true,
        }),
{
}

/// A page is ten steps.
pub proof fn pages_are_ten_steps(app: AppView)
    ensures
        app.acted(Action::PageUp) == app.acted(Action::Up).acted(Action::Up).acted(
            Action::Up,
        ).acted(Action::Up).acted(Action::Up).acted(Action::Up).acted(Action::Up).acted(
            Action::Up,
        ).acted(Action::Up).acted(Action::Up),
        app.acted(Action::PageDown) == app.acted(Action::Down).acted(Action::Down).acted(
            Action::Down,
        ).acted(Action::Down).acted(Action::Down).acted(Action::Down).acted(Action::Down).acted(
            Action::Down,
        ).acted(Action::Down).acted(Action::Down),
{
    reveal_with_fuel(AppView::stepped_by, 11);
}

/// A captured transaction is added at the end of the list, and a selection that
/// was there follows it; a key does what it asks for; nothing else that happens
/// changes anything.
pub proof fn events_do_what_they_say(app: AppView, tx: Transaction, key: KeyEvent)
    ensures
        app.after(TuiEvent::NewTransaction(tx)).transactions == app.transactions + seq![tx],
        app.transactions.len() > 0 && app.selected >= app.transactions.len() - 1 ==> app.after(
            TuiEvent::NewTransaction(tx),
        ).selected == app.transactions.len() && app.after(
            TuiEvent::NewTransaction(tx),
        ).detail_scroll == 0,
        app.transactions.len() == 0 || app.selected < app.transactions.len() - 1 ==> app.after(
            TuiEvent::NewTransaction(tx),
        ).selected == app.selected && app.after(TuiEvent::NewTransaction(tx)).detail_scroll
            == app.detail_scroll,
        app.after(TuiEvent::NewTransaction(tx)).focus == app.focus,
        app.after(TuiEvent::NewTransaction(tx)).should_quit == app.should_quit,
        action_for(key) is None ==> app.after(TuiEvent::Key(key)) == app,
        action_for(key) matches Some(action) ==> app.after(TuiEvent::Key(key)) == app.acted(action),
        app.after(TuiEvent::Resize) == app,
        app.after(TuiEvent::Tick) == app,
{
    assert(app.transactions.push(tx) =~= app.transactions + seq![tx]);
}

} // verus!
