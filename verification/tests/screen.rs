use yazelix_screen::terminal_control::{
    clear_screen_sequence, dimension_override, resolve_dimension, styled, styled_with_background,
    synchronized_frame_output, TermColor,
};
use yazelix_screen::{
    center_frame_lines, center_text, enter_screen_mode, leave_screen_mode, screen_frame_output,
    visible_line_width, HalfBlockField, RgbColor, ScreenCell, ScreenFrame,
};

#[test]
fn render_screen_frame_is_one_synchronized_update() {
    const BEGIN: &str = "\x1b[?2026h";
    const END: &str = "\x1b[?2026l";
    const RESET: &str = "\x1b[0m";
    let frame = vec!["a".repeat(4_096), "b".repeat(4_096), "c".to_string()];

    let output = synchronized_frame_output(&frame, "");

    assert!(output.len() > 8 * 1_024);
    assert!(output.starts_with(&format!("{BEGIN}{RESET}")));
    assert!(output.ends_with(&format!("{RESET}{END}")));
    assert_eq!(output.matches(BEGIN).count(), 1);
    assert_eq!(output.matches(END).count(), 1);
    assert_eq!(output.matches(RESET).count(), frame.len() + 1);
    assert!(clear_screen_sequence().starts_with(RESET));
    assert!(!output.contains('\n'));
    assert!(!output.contains("\x1b[2J"));
    assert!(output.contains("\x1b[1;1H\x1b[2K"));
    assert!(output.contains("\x1b[3;1H\x1b[Jc"));
    assert!(screen_frame_output(&[]).contains("\x1b[2J"));
    assert!(output.contains(&frame[0]));
    assert!(output.contains(&frame[1]));

    let overlay = "\x1b[2;3Hname and credit\x1b[0m";
    let composed = synchronized_frame_output(&frame, overlay);
    assert_eq!(composed.matches(BEGIN).count(), 1);
    assert_eq!(composed.matches(END).count(), 1);
    assert!(composed.ends_with(&format!("{overlay}{END}")));
    assert!(composed.find(&frame[1]).unwrap() < composed.find(overlay).unwrap());
}

#[test]
fn half_block_field_handles_colors_absence_bounds_and_resizes() {
    let red = RgbColor::new(255, 0, 0);
    let blue = RgbColor::new(0, 0, 255);
    let green = RgbColor::new(0, 255, 0);
    let yellow = RgbColor::new(255, 255, 0);
    let purple = RgbColor::new(127, 0, 255);
    let mut field = HalfBlockField::new(2, 3);

    field.set(0, 0, Some(red));
    field.set(0, 1, Some(blue));
    field.set(1, 0, Some(green));
    field.set(0, 2, Some(yellow));
    field.set(2, 0, Some(purple));
    field.set(0, 3, Some(purple));

    let lines = field.render_lines(2);
    assert_eq!(lines.len(), 2);
    assert!(lines.iter().all(|line| visible_line_width(line) == 2));
    assert_eq!(
        lines[0],
        "\x1b[38;2;255;0;0m\x1b[48;2;0;0;255m▀\x1b[49m\x1b[39m\x1b[38;2;0;255;0m▀\x1b[49m\x1b[39m"
    );
    assert_eq!(lines[1], "\x1b[38;2;255;255;0m▀\x1b[49m\x1b[39m ");

    field.clear();
    field.set(1, 1, Some(purple));
    let lines = field.render_lines(2);
    assert_eq!(lines[0], " \x1b[38;2;127;0;255m▄\x1b[49m\x1b[39m");
    assert_eq!(lines[1], "  ");

    field.resize(1, 1);
    assert_eq!(field.render_lines(1), vec![" "]);
    field.set(0, 0, Some(red));
    field.set(0, 0, None);
    assert_eq!(field.render_lines(1), vec![" "]);

    assert!(HalfBlockField::new(0, 3).render_lines(80).is_empty());
    assert!(HalfBlockField::new(3, 0).render_lines(80).is_empty());
}

#[test]
fn screen_cells_route_indexed_and_truecolor_rendering() {
    let mut frame = ScreenFrame::new(2, 1);
    frame.set(0, 0, ScreenCell::indexed('x', 3, 4));
    frame.set(
        1,
        0,
        ScreenCell::truecolor('▀', RgbColor::new(1, 2, 3), Some(RgbColor::new(4, 5, 6))),
    );

    assert_eq!(
        frame.render_lines(2, |cell| {
            assert_eq!(cell.glyph, 'x');
            assert_eq!((cell.color_x, cell.color_y), (3, 4));
            styled(cell.glyph, TermColor::Red)
        }),
        vec![format!(
            "{}\x1b[38;2;1;2;3m\x1b[48;2;4;5;6m▀\x1b[49m\x1b[39m",
            styled('x', TermColor::Red)
        )]
    );
}

#[test]
fn visible_width_skips_control_sequences() {
    assert_eq!(visible_line_width("plain"), 5);
    assert_eq!(visible_line_width("\x1b[38;5;46mA\x1b[39m"), 1);
    assert_eq!(visible_line_width("▀▄ "), 3);
    assert_eq!(visible_line_width(""), 0);
    // An escape that opens no sequence counts as a column.
    assert_eq!(visible_line_width("\x1bx"), 2);
    assert_eq!(visible_line_width("ab\x1b"), 3);
}

#[test]
fn centering_pads_both_sides_with_the_odd_space_right() {
    assert_eq!(center_text("ab", 7), "  ab   ");
    assert_eq!(center_text("\x1b[31mab\x1b[0m", 4), " \x1b[31mab\x1b[0m ");
    assert_eq!(center_text("wider", 3), "wider");
    assert_eq!(
        center_frame_lines(vec!["a".to_string(), "abcd".to_string()], 4),
        vec![" a  ".to_string(), "abcd".to_string()]
    );
}

#[test]
fn styled_glyphs_carry_their_colors() {
    assert_eq!(styled('x', TermColor::Red), "\x1b[38;5;9mx\x1b[39m");
    assert_eq!(styled('y', TermColor::AnsiValue(46)), "\x1b[38;5;46my\x1b[39m");
    assert_eq!(
        styled_with_background('z', TermColor::White, TermColor::Rgb { r: 1, g: 2, b: 3 }),
        "\x1b[38;5;15m\x1b[48;2;1;2;3mz\x1b[49m\x1b[39m"
    );
}

#[test]
fn screen_mode_sequences_enter_and_leave_the_alternate_screen() {
    assert_eq!(
        enter_screen_mode(),
        "\x1b[?1049h\x1b[?25l\x1b[?7l\x1b[0m\x1b[2J\x1b[1;1H"
    );
    assert_eq!(leave_screen_mode(), "\x1b[0m\x1b[?7h\x1b[?25h\x1b[?1049l");
    assert_eq!(clear_screen_sequence(), "\x1b[0m\x1b[1;1H\x1b[2J");
}

#[test]
fn frame_rows_are_placed_and_the_last_clears_below() {
    let frame = vec!["x".to_string(), "y".to_string()];
    assert_eq!(
        screen_frame_output(&frame),
        "\x1b[0m\x1b[1;1H\x1b[2Kx\x1b[0m\x1b[2;1H\x1b[Jy\x1b[0m"
    );
}

#[test]
fn terminal_size_overrides_must_be_positive_numbers() {
    assert_eq!(dimension_override(" 120 "), Some(120));
    assert_eq!(dimension_override("+7"), Some(7));
    assert_eq!(dimension_override("0"), None);
    assert_eq!(dimension_override("wide"), None);
    assert_eq!(dimension_override(""), None);
    assert_eq!(resolve_dimension(Some(3), Some(90), 80), 3);
    assert_eq!(resolve_dimension(None, Some(90), 80), 90);
    assert_eq!(resolve_dimension(None, None, 80), 80);
}

#[test]
fn frame_cells_outside_the_grid_are_ignored() {
    let mut frame = ScreenFrame::new(1, 1);
    frame.set(1, 0, ScreenCell::indexed('x', 0, 0));
    frame.set(0, 1, ScreenCell::indexed('x', 0, 0));
    assert_eq!(frame.render_lines(3, |_| String::from("?")), vec![" ".repeat(3)]);
}

#[test]
fn centering_counts_a_trailing_lone_escape_and_settles() {
    let line = "ab\u{1b}";
    assert_eq!(visible_line_width(line), 3);
    let once = center_text(line, 7);
    assert_eq!(once, "  ab\u{1b}  ");
    assert_eq!(visible_line_width(&once), 7);
    let lines = vec![
        line.to_string(),
        "\u{1b}[31mred\u{1b}[0m".to_string(),
        "wider than five".to_string(),
        String::new(),
    ];
    let centered = center_frame_lines(lines, 5);
    assert_eq!(centered[0], " ab\u{1b} ");
    assert_eq!(centered[1], " \u{1b}[31mred\u{1b}[0m ");
    assert_eq!(centered[2], "wider than five");
    assert_eq!(centered[3], "     ");
    assert_eq!(center_frame_lines(centered.clone(), 5), centered);
}
