//! The screens of the game and the moves between them.

use crate::game::GameScore;
use vstd::prelude::*;

verus! {

/// What the game is doing.
#[derive(Clone, Copy, Debug, PartialEq, Eq, Structural, Hash)]
pub enum GameState {
    Loading,
    Menu,
    Play,
    End,
}

impl Default for GameState {
    fn default() -> (r: Self)
        ensures
            r == GameState::Loading,
    {
        GameState::Loading
    }
}

/// The page of the menu that is shown.
#[derive(Clone, Copy, Debug, PartialEq, Eq, Structural, Hash)]
pub enum MenuState {
    Main,
    Settings,
    Keybinds,
    Rebinding,
    Visual,
    Exit,
}

impl Default for MenuState {
    fn default() -> (r: Self)
        ensures
            r == MenuState::Main,
    {
        MenuState::Main
    }
}

/// A button of the menu. The two that act on a setting name it.
#[derive(Debug)]
pub enum MenuButton {
    Play,
    GoMain,
    GoSettings,
    GoKeybinds,
    GoVisual,
    RemapKeybind(String),
    ResetKeybinds,
    ChangeFont(String),
}

/// The page that the pause key leads back to from `current`: the settings
/// from one of their two pages, the main page from anywhere else.
pub open spec fn spec_page_behind(current: MenuState) -> MenuState {
    match current {
        MenuState::Keybinds => MenuState::Settings,
        MenuState::Visual => MenuState::Settings,
        _ => MenuState::Main,
    }
}

/// Where the pause key leads: to the menu, on the page behind the current one.
pub fn return_to_menu(current: MenuState) -> (r: (MenuState, GameState))
    ensures
        r.0 == spec_page_behind(current),
        r.1 == GameState::Menu,
{
    let page = match current {
        MenuState::Keybinds => MenuState::Settings,
        MenuState::Visual => MenuState::Settings,
        _ => MenuState::Main,
    };
    (page, GameState::Menu)
}

/// The page that a press of `button` opens, if it opens one.
pub open spec fn spec_page_after(button: MenuButton) -> Option<MenuState> {
    match button {
        MenuButton::Play => None,
        MenuButton::GoMain => Some(MenuState::Main),
        MenuButton::GoSettings => Some(MenuState::Settings),
        MenuButton::GoKeybinds => Some(MenuState::Keybinds),
        MenuButton::GoVisual => Some(MenuState::Visual),
        MenuButton::RemapKeybind(_) => Some(MenuState::Rebinding),
        MenuButton::ResetKeybinds => None,
        MenuButton::ChangeFont(_) => None,
    }
}

/// Tells which page a press of `button` opens, if any.
pub fn page_after(button: &MenuButton) -> (r: Option<MenuState>)
    ensures
        r == spec_page_after(*button),
{
    match button {
        MenuButton::Play => None,
        MenuButton::GoMain => Some(MenuState::Main),
        MenuButton::GoSettings => Some(MenuState::Settings),
        MenuButton::GoKeybinds => Some(MenuState::Keybinds),
        MenuButton::GoVisual => Some(MenuState::Visual),
        MenuButton::RemapKeybind(_) => Some(MenuState::Rebinding),
        MenuButton::ResetKeybinds => None,
        MenuButton::ChangeFont(_) => None,
    }
}

/// Tells whether a press of `button` begins a round.
pub fn begins_round(button: &MenuButton) -> (r: bool)
    ensures
        r == (*button is Play),
{
    match button {
        MenuButton::Play => true,
        _ => false,
    }
}

/// The score that the end screen shows: that of the round, or the last
/// one where the round's has been put away already.
pub fn end_screen_score(score: &GameScore) -> (r: u32)
    ensures
        r == (if score.score > 0 {
            score.score
        } else {
            score.last_score
        }),
{
    if score.score > 0 {
        score.score
    } else {
        score.last_score
    }
}

} // verus!
