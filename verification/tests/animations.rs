use yazelix_screen::matrix::{colorize_matrix_cell, matrix_glyph, trail_tone, MATRIX_GLYPHS};
use yazelix_screen::primordial::{particle_color, shuffle, Neighborhood};
use yazelix_screen::random::{
    game_of_life_random_styles, seeded_index, size_seed, GAME_OF_LIFE_OSCILLATORS_STYLE,
};
use yazelix_screen::{
    boids_random_styles, random_animation_slot_count, random_animation_styles,
    resolve_random_animation_style, visible_line_width, MatrixAnimation, RgbColor,
    ScreenAnimationContext, ScreenCell, ScreenFrameProducer, MANDELBROT_STYLE, MATRIX_STYLE,
};

fn context(width: usize, height: usize) -> ScreenAnimationContext {
    ScreenAnimationContext {
        resolved_width: width,
        resolved_height: height,
        inner_width: width,
        size_class: "medium",
    }
}

fn visible_glyphs(frame: &[String]) -> usize {
    frame
        .iter()
        .map(|line| line.matches("\u{1b}[39m").count())
        .sum()
}

#[test]
fn matrix_animation_contract() {
    let mut first = MatrixAnimation::new(context(40, 12));
    let mut second = MatrixAnimation::new(context(40, 12));
    let initial = first.render_frame();

    assert_eq!(first, second);
    assert_eq!(initial.len(), 12);
    assert!(initial.iter().all(|line| visible_line_width(line) == 40));
    assert!(visible_glyphs(&initial) > 80);
    assert_eq!(first.column_list().len(), 40);
    assert!(first
        .column_list()
        .iter()
        .any(|column| column.speed != first.column_list()[0].speed));
    assert!(MATRIX_GLYPHS.chars().all(|glyph| glyph.is_ascii_graphic()));
    assert!((1..12).all(|age| trail_tone(age - 1, 12) >= trail_tone(age, 12)));
    assert!((1..32).any(|frame| matrix_glyph(7, 3, 5, frame) != matrix_glyph(7, 3, 5, 0)));

    for _ in 0..120 {
        first.advance_frame();
        second.advance_frame();
    }
    assert_eq!(first, second);
    assert_ne!(first.render_frame(), initial);
    assert!(visible_glyphs(&first.render_frame()) > 40);
    assert_eq!(first.column_list().len(), 40);

    for (width, height) in [(1, 1), (17, 5), (52, 15)] {
        first.resize(context(width, height));
        let frame = first.render_frame();
        assert_eq!(first.column_list().len(), width);
        assert_eq!(frame.len(), height);
        assert!(frame.iter().all(|line| visible_line_width(line) == width));
    }

    first.set_column_phase(0, 1);
    first.set_frame_index(usize::MAX - 1);
    first.advance_frame();
    assert_eq!(first.current_frame_index(), usize::MAX);
}

#[test]
fn matrix_trail_fades_from_a_white_head() {
    assert_eq!(trail_tone(0, 12), 4);
    assert_eq!(trail_tone(3, 12), 3);
    assert_eq!(trail_tone(11, 12), 0);
    assert_eq!(trail_tone(20, 12), 0);
    assert_eq!(
        colorize_matrix_cell(ScreenCell::indexed('A', 0, 4)),
        "\x1b[38;5;15mA\x1b[39m"
    );
    assert_eq!(
        colorize_matrix_cell(ScreenCell::indexed('B', 0, 0)),
        "\x1b[38;5;22mB\x1b[39m"
    );
    assert!(MATRIX_GLYPHS.contains(matrix_glyph(1, 2, 3, 4)));
    // The glyph changes every second frame.
    assert_eq!(matrix_glyph(9, 1, 1, 4), matrix_glyph(9, 1, 1, 5));
}

#[test]
fn matrix_without_columns_draws_nothing_wide() {
    let empty = MatrixAnimation::new(context(0, 3));
    let frame = empty.render_frame();
    assert_eq!(frame.len(), 3);
    assert!(frame.iter().all(|line| visible_line_width(line) == 0));
}

#[test]
fn random_animation_style_rotates_across_default_text_families() {
    let mut game_of_life_count = 0;
    let mut boids_count = 0;
    let mut mandelbrot_count = 0;
    let mut matrix_count = 0;
    let game_of_life = game_of_life_random_styles();
    let boids = boids_random_styles();

    for index in 0..random_animation_slot_count() {
        match resolve_random_animation_style(Some(index)) {
            style if game_of_life.contains(&style) => game_of_life_count += 1,
            style if boids.contains(&style) => boids_count += 1,
            MANDELBROT_STYLE => mandelbrot_count += 1,
            MATRIX_STYLE => matrix_count += 1,
            other => panic!("unexpected random style {other}"),
        }
    }

    assert_eq!(game_of_life_count, 6);
    assert_eq!(boids_count, 6);
    assert_eq!(mandelbrot_count, 6);
    assert_eq!(matrix_count, 6);
}

#[test]
fn random_slots_cycle_and_the_clock_picks_a_listed_style() {
    assert_eq!(random_animation_slot_count(), 24);
    let styles = random_animation_styles();
    assert!(styles.len() >= 4);
    assert_eq!(
        resolve_random_animation_style(Some(0)),
        resolve_random_animation_style(Some(24))
    );
    assert!(game_of_life_random_styles().contains(&GAME_OF_LIFE_OSCILLATORS_STYLE));
    let picked = resolve_random_animation_style(None);
    assert!(
        styles.contains(&picked)
            || game_of_life_random_styles().contains(&picked)
            || boids_random_styles().contains(&picked)
    );
}

#[test]
fn seeds_depend_on_size_and_indices_stay_in_range() {
    assert_eq!(size_seed(40, 12, 7), size_seed(40, 12, 7));
    assert_ne!(size_seed(40, 12, 7), size_seed(41, 12, 7));
    let mut seed = size_seed(10, 10, 1);
    for _ in 0..100 {
        assert!(seeded_index(&mut seed, 13) < 13);
    }
}

#[test]
fn primordial_shuffle_keeps_every_particle() {
    let mut order: Vec<usize> = (0..50).collect();
    let mut seed = 42;
    shuffle(&mut order, &mut seed);
    let mut sorted = order.clone();
    sorted.sort();
    assert_eq!(sorted, (0..50).collect::<Vec<_>>());
    assert_eq!(Neighborhood { left: 2, right: 3 }.total(), 5);
    let crowded = particle_color(40);
    let alone = particle_color(0);
    assert_ne!(crowded, alone);
    assert_eq!(alone, particle_color(0));
    let _: RgbColor = crowded;
}

#[test]
fn random_pool_is_exactly_the_slot_styles() {
    let styles = random_animation_styles();
    for (i, a) in styles.iter().enumerate() {
        for b in &styles[i + 1..] {
            assert_ne!(a, b);
        }
    }
    let slots = random_animation_slot_count();
    let picked: Vec<&str> = (0..slots)
        .map(|slot| yazelix_screen::resolve_random_animation_style(Some(slot)))
        .collect();
    for style in &picked {
        assert!(styles.contains(style), "{style}");
    }
    for style in &styles {
        assert!(picked.contains(style), "{style}");
    }
    for excluded in ["static", "logo", "friends_and_enemies", "physarum", "chladni"] {
        assert!(!styles.contains(&excluded), "{excluded}");
    }
}

#[test]
fn matrix_glyphs_hold_for_two_frames() {
    for frame in (0..64).step_by(2) {
        let glyph = matrix_glyph(11, 4, 9, frame);
        assert_eq!(glyph, matrix_glyph(11, 4, 9, frame + 1));
        assert!(MATRIX_GLYPHS.contains(glyph));
    }
}

#[test]
fn clock_readings_pick_their_slot() {
    use_clock_slot(123_456_789, 24, 123_456_789 % 24);
    use_clock_slot(999_999_999, 13, 999_999_999 % 13);
    use_clock_slot(5, 0, 0);
    use_clock_slot(0, 7, 0);
    use_clock_slot(30, 24, 6);
    for bound in [1usize, 13, 24] {
        assert!(yazelix_screen::random::system_random_index(bound) < bound);
    }
    assert_eq!(yazelix_screen::random::system_random_index(0), 0);
}

fn use_clock_slot(nanos: u32, bound: usize, expected: usize) {
    assert_eq!(yazelix_screen::random::clock_slot(nanos, bound), expected);
}
