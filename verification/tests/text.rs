use charon::text::{label_with, snake_to_upper};

#[test]
fn first_letter_goes_up_and_underscores_become_spaces() {
    assert_eq!(snake_to_upper("font_title"), "Font title");
    assert_eq!(snake_to_upper("interact"), "Interact");
    assert_eq!(snake_to_upper("a_b_c"), "A b c");
}

#[test]
fn leading_underscore_stays() {
    assert_eq!(snake_to_upper("_x"), "_x");
}

#[test]
fn empty_name_gives_empty_label() {
    assert_eq!(snake_to_upper(""), "");
}

#[test]
fn letters_outside_ascii_go_up_too() {
    assert_eq!(snake_to_upper("école_x"), "École x");
    assert_eq!(snake_to_upper("ßa"), "Sa");
    assert_eq!(snake_to_upper("Already"), "Already");
}

#[test]
fn label_takes_the_first_of_the_upper_case_form() {
    assert_eq!(label_with("font_title", &vec!['F']), "Font title");
    assert_eq!(label_with("ßa_b", &vec!['S', 'S']), "Sa b");
    assert_eq!(label_with("x_y", &vec!['Q']), "Q y");
}

#[test]
fn label_keeps_the_first_character_without_an_upper_case_form() {
    assert_eq!(label_with("a_b", &Vec::new()), "a b");
    assert_eq!(label_with("_a_", &Vec::new()), "_a ");
    assert_eq!(label_with("", &vec!['X']), "");
}
