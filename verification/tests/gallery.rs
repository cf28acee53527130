use yazelix_screen::gallery::{gallery_styles, listed_styles, recipe_matches_help};
use yazelix_screen::screen_runner::screen_help_text;

#[test]
fn help_lists_the_gallery_styles() {
    let help = screen_help_text("anima");
    let listed = listed_styles(&help);
    let gallery = gallery_styles();
    assert_eq!(listed.len(), 13);
    assert_eq!(listed, gallery.iter().map(|s| s.to_string()).collect::<Vec<_>>());
    assert!(recipe_matches_help(&help, &gallery));
}

#[test]
fn a_changed_recipe_no_longer_matches() {
    let help = screen_help_text("anima");
    let mut recipe = gallery_styles();
    recipe.pop();
    assert!(!recipe_matches_help(&help, &recipe));
    recipe.push("game_of_life_oscillators");
    assert!(!recipe_matches_help(&help, &recipe));
    let mut swapped = gallery_styles();
    swapped.swap(0, 1);
    assert!(!recipe_matches_help(&help, &swapped));
}

#[test]
fn listed_styles_follow_the_line_rules() {
    assert!(listed_styles("no header here\n  plasma\n").is_empty());
    assert_eq!(
        listed_styles("Intro\r\nStyles:\r\n  static\r\n  Plasma \r\n\tboids\r\n random\r\n\r\n  matrix\n"),
        vec!["Plasma".to_string()]
    );
    assert_eq!(
        listed_styles("Styles:\n  matrix\n  chladni"),
        vec!["matrix".to_string(), "chladni".to_string()]
    );
    assert!(listed_styles(" Styles:\n  matrix\n").is_empty());
    assert_eq!(listed_styles("Styles:\nStyles:\n  logo\n"), vec!["Styles:".to_string(), "logo".to_string()]);
    assert!(listed_styles("").is_empty());
}
