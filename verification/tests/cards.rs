use yazelix_screen::cards::{
    blue, center_vertically, colorize_body, colorize_logo, green, identity_card_rows, logo_frames,
    render_identity_card, static_card, static_card_lines, wrap_text, CardRow, WelcomeSpec,
    BROWSE_HINT,
};
use yazelix_screen::screen_runner::{animation_credit, animation_styles, AnimationStyle};
use yazelix_screen::{visible_line_width, RgbColor};

fn strip_ansi(text: &str) -> String {
    let mut out = String::new();
    let mut chars = text.chars().peekable();
    while let Some(ch) = chars.next() {
        if ch == '\x1b' && chars.peek() == Some(&'[') {
            chars.next();
            for inner in chars.by_ref() {
                if inner == 'H' {
                    out.push('\n');
                }
                if inner.is_ascii_alphabetic() {
                    break;
                }
            }
        } else {
            out.push(ch);
        }
    }
    out
}

#[test]
fn static_card_uses_yazelix_welcome_copy_without_extra_prompt() {
    let frame = strip_ansi(&static_card(140).join("\n"));
    assert!(frame.contains("YAZELIX"));
    assert!(frame.contains("your reproducible, declarative terminal IDE"));
    assert!(frame.contains("welcome to yazelix"));
    assert!(!frame.contains("just"));

    let narrow = static_card(20).join("\n");
    assert!(narrow.contains(&blue("zellij")));
    assert!(narrow.contains(&blue("helix")));
}

#[test]
fn welcome_copy_follows_the_terminal_width() {
    assert_eq!(WelcomeSpec::for_width(43).inner_width, 22);
    assert_eq!(WelcomeSpec::for_width(44).inner_width, 34);
    assert_eq!(WelcomeSpec::for_width(72).inner_width, 58);
    assert!(WelcomeSpec::for_width(72).center_body);
    assert_eq!(WelcomeSpec::for_width(119).body.len(), 4);
    assert_eq!(WelcomeSpec::for_width(120).body.len(), 5);
    assert_eq!(static_card(140).len(), 9);
    assert_eq!(static_card(30).len(), 6);
    // Every row of the box is equally wide and centered in the terminal.
    for width in [30, 60, 100, 140] {
        let card = static_card(width);
        assert!(card.iter().all(|line| visible_line_width(line) == width), "{width}");
    }
    // A terminal narrower than the box leaves the rows as they are.
    assert!(static_card(10).iter().all(|line| visible_line_width(line) == 24));
}

#[test]
fn body_accents_are_blue_and_the_rest_green() {
    assert_eq!(
        colorize_body("top terminals, shells"),
        format!("{}{}{}{}{}", green("top "), blue("terminals"), green(", "), blue("shells"), green(""))
    );
    assert_eq!(colorize_body("plain"), green("plain"));
    // The earliest accent wins, and `helix` inside `helix/zellij` is found first.
    assert_eq!(
        colorize_body("helix/zellij"),
        format!("{}{}{}{}{}", green(""), blue("helix"), green("/"), blue("zellij"), green(""))
    );
}

#[test]
fn logo_letters_cycle_through_five_colors() {
    assert_eq!(
        colorize_logo("AB CDEF"),
        "\x1b[31mA\x1b[0m\x1b[32mB\x1b[0m \x1b[34mC\x1b[0m\x1b[35mD\x1b[0m\x1b[31mE\x1b[0m\x1b[32mF\x1b[0m"
    );
}

#[test]
fn logo_frames_build_up_the_card() {
    let frames = logo_frames(80, 20);
    assert_eq!(frames.len(), 3);
    let title = strip_ansi(&frames[0].join("\n"));
    assert!(title.contains("YZS"));
    assert!(!title.contains("reproducible"));
    let first = strip_ansi(&frames[1].join("\n"));
    assert!(first.contains("YAZELIX"));
    assert!(first.contains("reproducible"));
    assert!(!first.contains("zero-conflict"));
    let full = strip_ansi(&frames[2].join("\n"));
    assert!(full.contains("curated program packs"));
    // Eight card rows centered in twenty: six blank rows above.
    assert_eq!(frames[2].len(), 6 + 8);
    assert!(frames[2][..6].iter().all(String::is_empty));
    let spec = WelcomeSpec::for_width(80);
    assert_eq!(static_card_lines(&spec, 4, true, 80), static_card(80));
}

#[test]
fn vertical_centering_puts_half_the_slack_above() {
    let lines = vec!["a".to_string(), "b".to_string()];
    assert_eq!(
        center_vertically(lines.clone(), 7),
        vec!["", "", "a", "b"]
    );
    assert_eq!(center_vertically(lines.clone(), 1), lines);
}

#[test]
fn wrapping_never_splits_a_word() {
    let lines = wrap_text("Model by Thomas Schmickl", 10).unwrap();
    let lines: Vec<String> = lines.into_iter().map(|line| line.into_iter().collect()).collect();
    assert_eq!(lines, vec!["Model by", "Thomas", "Schmickl"]);
    assert!(wrap_text("Crailsheim", 9).is_none());
    let one: Vec<String> = wrap_text("  a  b ", 52)
        .unwrap()
        .into_iter()
        .map(|line| line.into_iter().collect())
        .collect();
    assert_eq!(one, vec!["a b"]);
}

#[test]
fn identity_card_wraps_and_preserves_complete_credits() {
    for style in animation_styles() {
        let (title, credit) = animation_credit(style);
        for width in [24, 40, 80, 160] {
            let rows = identity_card_rows(style, width, 24);
            assert!(!rows.is_empty());
            let card = render_identity_card(&rows);
            let plain = strip_ansi(&card);
            let lines: Vec<_> = plain.lines().skip(1).collect();
            assert!(!lines.is_empty());
            assert!(lines.iter().all(|line| line.chars().count() <= width - 4));
            let text = lines.join(" ").replace(['│', '╭', '╮', '╰', '╯', '─'], " ");
            let text = text.split_whitespace().collect::<Vec<_>>().join(" ");
            assert_eq!(text, format!("{title} {credit} {BROWSE_HINT}"));

            let mut black = true;
            for sequence in card.split("\x1b[").skip(1) {
                let end = sequence.find(|ch: char| ch.is_ascii_alphabetic()).unwrap();
                let (parameters, content) = sequence.split_at(end);
                if content.starts_with('m') {
                    match parameters {
                        "0" | "49" => black = false,
                        "48;2;0;0;0" => black = true,
                        _ => {}
                    }
                }
                for glyph in content[1..].chars() {
                    let border = "│╭╮╰╯─".contains(glyph);
                    assert_eq!(black, !border, "background behind {glyph:?}");
                }
            }
            assert!(!black, "the card must restore the background");
        }
        for (width, height) in [(0, 0), (1, 1), (8, 24), (80, 3)] {
            assert!(identity_card_rows(style, width, height).is_empty());
        }
    }
}

#[test]
fn identity_card_rows_are_drawn_in_place_and_color() {
    let rows = identity_card_rows(AnimationStyle::Chladni, 80, 24);
    assert_eq!(rows.len(), 5);
    assert_eq!(rows[0].color, RgbColor::new(64, 88, 112));
    assert_eq!(rows[1].color, RgbColor::new(235, 241, 250));
    assert_eq!(rows[2].color, RgbColor::new(176, 190, 210));
    assert_eq!(rows[3].color, RgbColor::new(94, 183, 194));
    let inner = "Equations documented by Paul Bourke".chars().count();
    assert_eq!(rows[0].text, format!("╭{}╮", "─".repeat(inner + 2)));
    assert_eq!(
        rows[1].text,
        format!("│\x1b[48;2;0;0;0m {:<inner$} \x1b[49m│", "Chladni")
    );
    let drawn = render_identity_card(&[CardRow {
        text: "hi".to_string(),
        color: RgbColor::new(1, 2, 3),
    }]
    .to_vec());
    assert_eq!(drawn, "\x1b[2;3H\x1b[0m\x1b[38;2;1;2;3mhi\x1b[0m");
    assert_eq!(render_identity_card(&Vec::new()), "");
}
