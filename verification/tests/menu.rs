use charon::game::GameScore;
use charon::menu::{
    begins_round, end_screen_score, page_after, return_to_menu, GameState, MenuButton, MenuState,
};

#[test]
fn game_begins_loading_and_menu_on_its_main_page() {
    assert_eq!(GameState::default(), GameState::Loading);
    assert_eq!(MenuState::default(), MenuState::Main);
}

#[test]
fn pause_leads_one_page_back() {
    assert_eq!(return_to_menu(MenuState::Keybinds), (MenuState::Settings, GameState::Menu));
    assert_eq!(return_to_menu(MenuState::Visual), (MenuState::Settings, GameState::Menu));
    assert_eq!(return_to_menu(MenuState::Settings), (MenuState::Main, GameState::Menu));
    assert_eq!(return_to_menu(MenuState::Main), (MenuState::Main, GameState::Menu));
    assert_eq!(return_to_menu(MenuState::Rebinding), (MenuState::Main, GameState::Menu));
    assert_eq!(return_to_menu(MenuState::Exit), (MenuState::Main, GameState::Menu));
}

#[test]
fn buttons_open_their_pages() {
    assert_eq!(page_after(&MenuButton::Play), None);
    assert_eq!(page_after(&MenuButton::GoMain), Some(MenuState::Main));
    assert_eq!(page_after(&MenuButton::GoSettings), Some(MenuState::Settings));
    assert_eq!(page_after(&MenuButton::GoKeybinds), Some(MenuState::Keybinds));
    assert_eq!(page_after(&MenuButton::GoVisual), Some(MenuState::Visual));
    assert_eq!(
        page_after(&MenuButton::RemapKeybind("pause".to_string())),
        Some(MenuState::Rebinding)
    );
    assert_eq!(page_after(&MenuButton::ResetKeybinds), None);
    assert_eq!(page_after(&MenuButton::ChangeFont("title".to_string())), None);
}

#[test]
fn only_play_begins_a_round() {
    assert!(begins_round(&MenuButton::Play));
    assert!(!begins_round(&MenuButton::GoMain));
    assert!(!begins_round(&MenuButton::ResetKeybinds));
    assert!(!begins_round(&MenuButton::ChangeFont("text".to_string())));
}

#[test]
fn end_screen_shows_the_round_or_the_last_one() {
    assert_eq!(end_screen_score(&GameScore { score: 7, last_score: 3, best_score: 9 }), 7);
    assert_eq!(end_screen_score(&GameScore { score: 0, last_score: 3, best_score: 9 }), 3);
    assert_eq!(end_screen_score(&GameScore { score: 0, last_score: 0, best_score: 9 }), 0);
}
