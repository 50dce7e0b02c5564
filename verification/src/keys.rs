//! Which action a key press stands for, depending on what is open.

use vstd::prelude::*;
use crate::action::Action;

verus! {

/// The keys the application tells apart.
#[derive(Clone, Copy, Debug, PartialEq, Eq, Structural)]
pub enum Key {
    Char(char),
    Esc,
    Enter,
    Backspace,
    Left,
    Right,
    Up,
    Down,
    Tab,
    BackTab,
    /// Any other key.
    Other,
}

/// A key press with the modifiers held.
#[derive(Clone, Copy, Debug)]
pub struct KeyInput {
    pub code: Key,
    pub ctrl: bool,
    pub alt: bool,
    pub shift: bool,
}

/// The action of a key press. While the termination dialog is open only its
/// keys count; while a search is typed, printable keys (without Ctrl or Alt)
/// edit it; otherwise the global bindings apply.
pub open spec fn key_action_of(key: KeyInput, kill_confirm_active: bool, search_mode: bool) -> Option<Action> {
    if kill_confirm_active {
        match key.code {
            Key::Left | Key::Right | Key::Tab | Key::BackTab => Some(Action::ToggleProcessKillChoice),
            Key::Enter => Some(Action::ConfirmProcessKill),
            Key::Esc => Some(Action::CancelProcessKill),
            _ => None,
        }
    } else if search_mode {
        match key.code {
            Key::Esc => Some(Action::CancelProcessSearch),
            Key::Enter => Some(Action::ConfirmProcessSearch),
            Key::Backspace => Some(Action::BackspaceProcessSearch),
            Key::Char(c) => if key.ctrl || key.alt {
                None
            } else {
                Some(Action::UpdateProcessSearch(c))
            },
            _ => None,
        }
    } else {
        match key.code {
            Key::Char('q') | Key::Esc => Some(Action::Quit),
            Key::Char('c') => Some(Action::ToggleAutoUpdate),
            Key::Char('+') => Some(Action::IncreaseSpeed),
            Key::Char('-') => Some(Action::DecreaseSpeed),
            Key::Up => Some(Action::MoveUp),
            Key::Down => Some(Action::MoveDown),
            Key::Enter => Some(Action::Enter),
            Key::Char('b') => Some(Action::Back),
            Key::Char('t') => Some(Action::SwitchTheme),
            Key::Char('k') | Key::Char('K') => Some(Action::RequestProcessKill),
            Key::Char('S') => Some(Action::StartProcessSearch),
            Key::Char('s') => if key.shift {
                Some(Action::StartProcessSearch)
            } else {
                Some(Action::SwitchProcessSort)
            },
            Key::Char('n') => Some(Action::SwitchChartType),
            Key::Char('T') => Some(Action::ToggleProcessTree),
            Key::Char('i') => Some(Action::CycleNetworkInterface),
            Key::Char('w') => Some(Action::SaveConfig),
            _ => None,
        }
    }
}

/// The action a key press stands for, if any.
pub fn handle_key_events(key: KeyInput, kill_confirm_active: bool, search_mode: bool) -> (res: Option<Action>)
    ensures
        res == key_action_of(key, kill_confirm_active, search_mode),
{
    if kill_confirm_active {
        return match key.code {
            Key::Left | Key::Right | Key::Tab | Key::BackTab => Some(Action::ToggleProcessKillChoice),
            Key::Enter => Some(Action::ConfirmProcessKill),
            Key::Esc => Some(Action::CancelProcessKill),
            _ => None,
        };
    }
    if search_mode {
        return match key.code {
            Key::Esc => Some(Action::CancelProcessSearch),
            Key::Enter => Some(Action::ConfirmProcessSearch),
            Key::Backspace => Some(Action::BackspaceProcessSearch),
            Key::Char(c) => {
                if key.ctrl || key.alt {
                    None
                } else {
                    Some(Action::UpdateProcessSearch(c))
                }
            },
            _ => None,
        };
    }
    match key.code {
        Key::Char('q') | Key::Esc => Some(Action::Quit),
        Key::Char('c') => Some(Action::ToggleAutoUpdate),
        Key::Char('+') => Some(Action::IncreaseSpeed),
        Key::Char('-') => Some(Action::DecreaseSpeed),
        Key::Up => Some(Action::MoveUp),
        Key::Down => Some(Action::MoveDown),
        Key::Enter => Some(Action::Enter),
        Key::Char('b') => Some(Action::Back),
        Key::Char('t') => Some(Action::SwitchTheme),
        Key::Char('k') | Key::Char('K') => Some(Action::RequestProcessKill),
        Key::Char('S') => Some(Action::StartProcessSearch),
        Key::Char('s') if key.shift => Some(Action::StartProcessSearch),
        Key::Char('s') => Some(Action::SwitchProcessSort),
        Key::Char('n') => Some(Action::SwitchChartType),
        Key::Char('T') => Some(Action::ToggleProcessTree),
        Key::Char('i') => Some(Action::CycleNetworkInterface),
        Key::Char('w') => Some(Action::SaveConfig),
        _ => None,
    }
}

/// Esc backs out of whatever is open: it dismisses the dialog, cancels the
/// search, and quits only when neither is open.
pub proof fn lemma_escape_backs_out(key: KeyInput, kill_confirm_active: bool, search_mode: bool)
    requires
        key.code == Key::Esc,
    ensures
        kill_confirm_active ==> key_action_of(key, kill_confirm_active, search_mode) == Some(
            Action::CancelProcessKill,
        ),
        !kill_confirm_active && search_mode ==> key_action_of(key, kill_confirm_active, search_mode)
            == Some(Action::CancelProcessSearch),
        !kill_confirm_active && !search_mode ==> key_action_of(key, kill_confirm_active, search_mode)
            == Some(Action::Quit),
{
}

/// While a search is typed, every printable key without Ctrl or Alt is text.
pub proof fn lemma_search_takes_printable_keys(c: char, shift: bool)
    ensures
        key_action_of(KeyInput { code: Key::Char(c), ctrl: false, alt: false, shift }, false, true)
            == Some(Action::UpdateProcessSearch(c)),
{
}

/// The global bindings, whatever modifiers are held, when neither the
/// dialog nor a search is open: `q` and Esc quit, the arrows move the
/// selection, `k` and `K` ask to terminate, `S` (and `s` with Shift) starts
/// a search, `s` switches the sort, `T` toggles the tree, `t` the theme, `i`
/// the interface, `w` saves, `n` the chart, `c` auto-update, `+`/`-` the
/// speed, `b` goes back and Enter enters.
pub proof fn lemma_global_bindings(ctrl: bool, alt: bool, shift: bool)
    ensures
        ({
            let act = |code: Key| key_action_of(KeyInput { code, ctrl, alt, shift }, false, false);
            &&& act(Key::Char('q')) == Some(Action::Quit)
            &&& act(Key::Esc) == Some(Action::Quit)
            &&& act(Key::Up) == Some(Action::MoveUp)
            &&& act(Key::Down) == Some(Action::MoveDown)
            &&& act(Key::Char('k')) == Some(Action::RequestProcessKill)
            &&& act(Key::Char('K')) == Some(Action::RequestProcessKill)
            &&& act(Key::Char('S')) == Some(Action::StartProcessSearch)
            &&& act(Key::Char('s')) == if shift {
                Some(Action::StartProcessSearch)
            } else {
                Some(Action::SwitchProcessSort)
            }
            &&& act(Key::Char('T')) == Some(Action::ToggleProcessTree)
            &&& act(Key::Char('t')) == Some(Action::SwitchTheme)
            &&& act(Key::Char('i')) == Some(Action::CycleNetworkInterface)
            &&& act(Key::Char('w')) == Some(Action::SaveConfig)
            &&& act(Key::Char('n')) == Some(Action::SwitchChartType)
            &&& act(Key::Char('c')) == Some(Action::ToggleAutoUpdate)
            &&& act(Key::Char('+')) == Some(Action::IncreaseSpeed)
            &&& act(Key::Char('-')) == Some(Action::DecreaseSpeed)
            &&& act(Key::Char('b')) == Some(Action::Back)
            &&& act(Key::Enter) == Some(Action::Enter)
            &&& act(Key::Backspace) is None
            &&& act(Key::Other) is None
        }),
{
}

/// While the dialog is open, only its keys count, whatever else is open or
/// held: Left, Right, Tab and Shift+Tab toggle the choice, Enter confirms,
/// Esc cancels, and any other key does nothing.
pub proof fn lemma_dialog_bindings(key: KeyInput, search_mode: bool)
    ensures
        key_action_of(key, true, search_mode) == match key.code {
            Key::Left | Key::Right | Key::Tab | Key::BackTab => Some(Action::ToggleProcessKillChoice),
            Key::Enter => Some(Action::ConfirmProcessKill),
            Key::Esc => Some(Action::CancelProcessKill),
            _ => None,
        },
        key.code is Char ==> key_action_of(key, true, search_mode) is None,
{
}

} // verus!
