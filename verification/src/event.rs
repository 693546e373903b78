//! The keys of the interactive list and what each one does in each mode.
use vstd::prelude::*;
use vstd::view::View as HasView;

use crate::app::{App, Effect, View};

verus! {

/// A key, as far as the list tells keys apart.
#[derive(Clone, Copy, PartialEq, Eq, Debug, Structural)]
pub enum Key {
    Char(char),
    Esc,
    Enter,
    Backspace,
    Up,
    Down,
    Left,
    Right,
    Tab,
    BackTab,
    PageUp,
    PageDown,
    Home,
    End,
    Other,
}

/// A key press, with whether Control was held.
#[derive(Clone, Copy, PartialEq, Eq, Debug, Structural)]
pub struct KeyPress {
    pub code: Key,
    pub ctrl: bool,
}

/// What a key asks of the state.
pub enum Command {
    Quit,
    SearchCancel,
    SearchConfirm,
    SearchPop,
    SearchPush(char),
    SelectNext,
    SelectPrev,
    PageDown,
    PageUp,
    SelectFirst,
    SelectLast,
    OpenActions,
    SearchOpen,
    CycleNext,
    CyclePrev,
    ActionNext,
    ActionPrev,
    Execute,
    GoBack,
    ConfirmKill,
    Ignore,
}

/// Rows that Page Up and Page Down move the selection by.
pub const PAGE_ROWS: usize = 10;

/// The command of a key: Ctrl-C quits everywhere; while typing a search the
/// search keys apply; otherwise the keys of the current view.
pub open spec fn command_for(view: View, searching: bool, query_empty: bool, k: KeyPress) -> Command {
    if k.ctrl && k.code == Key::Char('c') {
        Command::Quit
    } else if searching {
        match k.code {
            Key::Esc => Command::SearchCancel,
            Key::Enter => Command::SearchConfirm,
            Key::Backspace => Command::SearchPop,
            Key::Char(c) => Command::SearchPush(c),
            Key::Down => Command::SelectNext,
            Key::Up => Command::SelectPrev,
            _ => Command::Ignore,
        }
    } else {
        match view {
            View::List => match k.code {
                Key::Char('q') | Key::Esc => if query_empty {
                    Command::Quit
                } else {
                    Command::SearchCancel
                },
                Key::Down | Key::Char('j') => Command::SelectNext,
                Key::Up | Key::Char('k') => Command::SelectPrev,
                Key::Right | Key::Enter => Command::OpenActions,
                Key::Char('/') => Command::SearchOpen,
                Key::Tab => Command::CycleNext,
                Key::BackTab => Command::CyclePrev,
                Key::PageDown => Command::PageDown,
                Key::PageUp => Command::PageUp,
                Key::Home | Key::Char('g') => Command::SelectFirst,
                Key::End | Key::Char('G') => Command::SelectLast,
                _ => Command::Ignore,
            },
            View::Actions => match k.code {
                Key::Down | Key::Char('j') => Command::ActionNext,
                Key::Up | Key::Char('k') => Command::ActionPrev,
                Key::Enter | Key::Right => Command::Execute,
                Key::Left | Key::Esc => Command::GoBack,
                _ => Command::Ignore,
            },
            View::Confirm => match k.code {
                Key::Char('y') | Key::Enter => Command::ConfirmKill,
                Key::Char('n') | Key::Esc | Key::Left => Command::GoBack,
                _ => Command::Ignore,
            },
        }
    }
}

/// What handling a key does: `r.0` is whether the list keeps running, `r.1`
/// the work left to the caller.
pub open spec fn key_post(old: App, new: App, k: KeyPress, r: (bool, Effect)) -> bool {
    match command_for(old.view, old.searching, old.search_query@.len() == 0, k) {
        Command::Quit => !r.0 && r.1 == Effect::Nothing && new == (App { running: false, ..old }),
        Command::SearchCancel => r == (true, Effect::Nothing) && old.after_search(
            new,
            Seq::<char>::empty(),
            false,
        ),
        Command::SearchConfirm => r == (true, Effect::Nothing) && new == (App {
            searching: false,
            ..old
        }),
        Command::SearchPop => r == (true, Effect::Nothing) && old.after_search(
            new,
            if old.search_query@.len() > 0 {
                old.search_query@.drop_last()
            } else {
                old.search_query@
            },
            old.searching,
        ),
        Command::SearchPush(c) => r == (true, Effect::Nothing) && old.after_search(
            new,
            old.search_query@.push(c),
            old.searching,
        ),
        Command::SelectNext => r == (true, Effect::Nothing) && new == old.select_next_spec(),
        Command::SelectPrev => r == (true, Effect::Nothing) && new == old.select_prev_spec(),
        Command::PageDown => r == (true, Effect::Nothing) && new == old.repeat_next(
            PAGE_ROWS as nat,
        ),
        Command::PageUp => r == (true, Effect::Nothing) && new == old.repeat_prev(PAGE_ROWS as nat),
        Command::SelectFirst => r == (true, Effect::Nothing) && new == old.select_first_spec(),
        Command::SelectLast => r == (true, Effect::Nothing) && new == old.select_last_spec(),
        Command::OpenActions => r == (true, Effect::Nothing) && new == old.open_actions_spec(),
        Command::SearchOpen => r == (true, Effect::Nothing) && old.search_open_post(new),
        Command::CycleNext => r == (true, Effect::Nothing) && old.after_cycle(
            new,
            ((old.filter_idx + 1) % (old.filters@.len() as int)) as usize,
        ),
        Command::CyclePrev => r == (true, Effect::Nothing) && old.after_cycle(
            new,
            if old.filter_idx == 0 {
                (old.filters@.len() - 1) as usize
            } else {
                (old.filter_idx - 1) as usize
            },
        ),
        Command::ActionNext => r == (true, Effect::Nothing) && new == old.action_next_spec(),
        Command::ActionPrev => r == (true, Effect::Nothing) && new == old.action_prev_spec(),
        Command::Execute => r.0 && exists|start: bool|
            #![auto]
            old.execute_post(new, start) && r.1 == if start {
                Effect::Scan
            } else {
                Effect::Nothing
            },
        Command::GoBack => r == (true, Effect::Nothing) && new == old.go_back_spec(),
        Command::ConfirmKill => r.0 && if old.selected < old.entries@.len() {
            r.1 == (Effect::Kill {
                port: old.entries@[old.selected as int].port,
                force: old.confirm_force,
            }) && new == old
        } else {
            r.1 == Effect::Nothing && new == (App { view: View::List, ..old })
        },
        Command::Ignore => r == (true, Effect::Nothing) && new == old,
    }
}

fn handle_search(app: &mut App, key: KeyPress) -> (r: (bool, Effect))
    requires
        old(app).wf(),
        old(app).searching,
        !(key.ctrl && key.code == Key::Char('c')),
    ensures
        final(app).wf(),
        key_post(*old(app), *final(app), key, r),
{
    match key.code {
        Key::Esc => {
            app.search_cancel();
        },
        Key::Enter => {
            app.search_confirm();
        },
        Key::Backspace => {
            app.search_pop();
        },
        Key::Char(ch) => {
            app.search_push(ch);
        },
        Key::Down => {
            app.select_next();
        },
        Key::Up => {
            app.select_prev();
        },
        _ => {},
    }
    (true, Effect::Nothing)
}

fn handle_list(app: &mut App, key: KeyPress) -> (r: (bool, Effect))
    requires
        old(app).wf(),
        !old(app).searching,
        old(app).view == View::List,
        !(key.ctrl && key.code == Key::Char('c')),
    ensures
        final(app).wf(),
        key_post(*old(app), *final(app), key, r),
{
    match key.code {
        Key::Char('q') | Key::Esc => {
            if !app.search_query.as_str().is_empty() {
                app.search_cancel();
                return (true, Effect::Nothing);
            }
            app.running = false;
            (false, Effect::Nothing)
        },
        Key::Down | Key::Char('j') => {
            app.select_next();
            (true, Effect::Nothing)
        },
        Key::Up | Key::Char('k') => {
            app.select_prev();
            (true, Effect::Nothing)
        },
        Key::Right | Key::Enter => {
            app.open_actions();
            (true, Effect::Nothing)
        },
        Key::Char('/') => {
            app.search_open();
            (true, Effect::Nothing)
        },
        Key::Tab => {
            proof {
                vstd::std_specs::vec::axiom_spec_len(&app.filters);
            }
            app.cycle_filter_next();
            (true, Effect::Nothing)
        },
        Key::BackTab => {
            app.cycle_filter_prev();
            (true, Effect::Nothing)
        },
        Key::PageDown => {
            let ghost start = *app;
            let mut i: usize = 0;
            while i < PAGE_ROWS
                invariant
                    i <= PAGE_ROWS,
                    app.wf(),
                    start.repeat_next(PAGE_ROWS as nat) == app.repeat_next((PAGE_ROWS - i) as nat),
                decreases PAGE_ROWS - i,
            {
                app.select_next();
                i = i + 1;
            }
            (true, Effect::Nothing)
        },
        Key::PageUp => {
            let ghost start = *app;
            let mut i: usize = 0;
            while i < PAGE_ROWS
                invariant
                    i <= PAGE_ROWS,
                    app.wf(),
                    start.repeat_prev(PAGE_ROWS as nat) == app.repeat_prev((PAGE_ROWS - i) as nat),
                decreases PAGE_ROWS - i,
            {
                app.select_prev();
                i = i + 1;
            }
            (true, Effect::Nothing)
        },
        Key::Home | Key::Char('g') => {
            app.select_first();
            (true, Effect::Nothing)
        },
        Key::End | Key::Char('G') => {
            app.select_last();
            (true, Effect::Nothing)
        },
        _ => (true, Effect::Nothing),
    }
}

fn handle_actions(app: &mut App, key: KeyPress) -> (r: (bool, Effect))
    requires
        old(app).wf(),
        !old(app).searching,
        old(app).view == View::Actions,
        !(key.ctrl && key.code == Key::Char('c')),
    ensures
        final(app).wf(),
        key_post(*old(app), *final(app), key, r),
{
    match key.code {
        Key::Down | Key::Char('j') => {
            app.action_next();
            (true, Effect::Nothing)
        },
        Key::Up | Key::Char('k') => {
            app.action_prev();
            (true, Effect::Nothing)
        },
        Key::Enter | Key::Right => {
            let start = app.execute_action();
            (
                true,
                if start {
                    Effect::Scan
                } else {
                    Effect::Nothing
                },
            )
        },
        Key::Left | Key::Esc => {
            app.go_back();
            (true, Effect::Nothing)
        },
        _ => (true, Effect::Nothing),
    }
}

fn handle_confirm(app: &mut App, key: KeyPress) -> (r: (bool, Effect))
    requires
        old(app).wf(),
        !old(app).searching,
        old(app).view == View::Confirm,
        !(key.ctrl && key.code == Key::Char('c')),
    ensures
        final(app).wf(),
        key_post(*old(app), *final(app), key, r),
{
    match key.code {
        Key::Char('y') | Key::Enter => {
            match app.kill_target() {
                Some(t) => (true, Effect::Kill { port: t.0, force: t.1 }),
                None => {
                    app.do_kill(None);
                    (true, Effect::Nothing)
                },
            }
        },
        Key::Char('n') | Key::Esc | Key::Left => {
            app.go_back();
            (true, Effect::Nothing)
        },
        _ => (true, Effect::Nothing),
    }
}

/// Handles one key press. The result says whether the list keeps running
/// and what the caller must do: start a scan, or signal a process and then
/// report through [`App::do_kill`].
pub fn handle_key(app: &mut App, key: KeyPress) -> (r: (bool, Effect))
    requires
        old(app).wf(),
    ensures
        final(app).wf(),
        key_post(*old(app), *final(app), key, r),
{
    if key.ctrl && key.code == Key::Char('c') {
        app.running = false;
        return (false, Effect::Nothing);
    }
    if app.searching {
        return handle_search(app, key);
    }
    match app.view {
        View::List => handle_list(app, key),
        View::Actions => handle_actions(app, key),
        View::Confirm => handle_confirm(app, key),
    }
}

} // verus!
