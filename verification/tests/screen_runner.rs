use std::time::Duration;

use yazelix_screen::screen_runner::{
    after_poll, after_read, animation_credit, animation_styles, browse_style, context_for_style,
    frame_delay, full_screen_context, game_of_life_context, key_action, next_wait,
    parse_screen_args, react_to_input, resolve_style, screen_help_text, size_class,
    AnimationStyle, GameOfLifeVariant, InputAction, KeyName, KeyPress, PollStep, Reaction,
    ReadStep, ScreenCommand, ScreenStyle, TurnStart, turn_start,
};
use yazelix_screen::{
    run_screen_cli, screen_random_styles, screen_styles, BoidsVariant, GameOfLifeCellStyle,
};

fn args(values: &[&str]) -> Vec<String> {
    values.iter().map(|value| value.to_string()).collect()
}

fn press(name: KeyName) -> KeyPress {
    KeyPress {
        name,
        plain: true,
        release: false,
    }
}

#[test]
fn random_pool_resolves_current_animations_with_existing_alias_weight() {
    let mut native = Vec::new();
    for index in 0..screen_random_styles().len() {
        match resolve_style("random", Some(index), "anima").unwrap() {
            ScreenStyle::Animation(style) => native.push(style),
            _ => panic!("random selected a non-animation"),
        }
    }
    let animations = animation_styles();
    assert_eq!(native.len(), animations.len() + 1);
    for style in &animations {
        let weight = if *style == AnimationStyle::Boids(BoidsVariant::Predator) {
            2
        } else {
            1
        };
        assert_eq!(
            native
                .iter()
                .filter(|candidate| *candidate == style)
                .count(),
            weight,
            "{style:?}"
        );
    }
}

#[test]
fn parse_args_accepts_style_cell_style_and_duration() {
    let parsed = parse_screen_args(
        args(&[
            "game_of_life_gliders",
            "--cell-style",
            "dotted",
            "--duration-seconds",
            "3",
        ]),
        "anima",
    )
    .unwrap();

    assert_eq!(parsed.style, "game_of_life_gliders");
    assert_eq!(parsed.cell_style, GameOfLifeCellStyle::Dotted);
    assert_eq!(
        parsed.duration_seconds.map(Duration::from_secs),
        Some(Duration::from_secs(3))
    );
    assert!(!parsed.help);
}

#[test]
fn game_of_life_context_preserves_inner_width_floor() {
    let floor = 32;
    let context = game_of_life_context(20, 10, floor);

    assert_eq!(context.size_class, "narrow");
    assert_eq!(context.inner_width, floor);
    assert_eq!(context.resolved_height, 10);
}

#[test]
fn animation_navigation_maps_keys_and_wraps_through_aquarium() {
    for name in [KeyName::Left, KeyName::Char('h'), KeyName::Char('p')] {
        assert_eq!(key_action(press(name)), Some(InputAction::Previous));
    }
    for name in [KeyName::Right, KeyName::Char('l'), KeyName::Char('n')] {
        assert_eq!(key_action(press(name)), Some(InputAction::Next));
    }
    for key in [
        press(KeyName::Char('q')),
        KeyPress {
            name: KeyName::Char('h'),
            plain: false,
            release: false,
        },
        KeyPress {
            name: KeyName::Right,
            plain: false,
            release: false,
        },
    ] {
        assert_eq!(key_action(key), Some(InputAction::Exit));
    }
    assert_eq!(
        key_action(KeyPress {
            name: KeyName::Char('l'),
            plain: true,
            release: true,
        }),
        None
    );

    assert_eq!(
        animation_styles(),
        vec![
            AnimationStyle::Aquarium,
            AnimationStyle::Boids(BoidsVariant::Predator),
            AnimationStyle::Boids(BoidsVariant::Schools),
            AnimationStyle::FriendsAndEnemies,
            AnimationStyle::Primordial,
            AnimationStyle::Physarum,
            AnimationStyle::Chladni,
            AnimationStyle::Plasma,
            AnimationStyle::Mandelbrot,
            AnimationStyle::Matrix,
            AnimationStyle::GameOfLife(GameOfLifeVariant::Gliders),
            AnimationStyle::GameOfLife(GameOfLifeVariant::Tumblers),
        ]
    );
    let cycle = animation_styles();
    for index in 0..cycle.len() {
        let current = cycle[index];
        assert_eq!(
            browse_style(current, InputAction::Next),
            cycle[(index + 1) % cycle.len()]
        );
        assert_eq!(
            browse_style(current, InputAction::Previous),
            cycle[(index + cycle.len() - 1) % cycle.len()]
        );
        assert_eq!(browse_style(current, InputAction::Exit), current);
    }
}

#[test]
fn listed_styles_resolve_and_retired_patterns_do_not() {
    for style in screen_styles() {
        assert!(resolve_style(style, None, "anima").is_ok(), "{style}");
    }
    assert_eq!(
        resolve_style(" AQUARIUM ", None, "anima"),
        Ok(ScreenStyle::Animation(AnimationStyle::Aquarium))
    );
    assert_eq!(
        resolve_style(" ASCIIQUARIUM ", None, "anima"),
        resolve_style("aquarium", None, "anima")
    );
    assert_eq!(
        resolve_style(" PHYSARUM ", None, "anima"),
        Ok(ScreenStyle::Animation(AnimationStyle::Physarum))
    );
    assert_eq!(
        resolve_style(" CHLADNI ", None, "anima"),
        Ok(ScreenStyle::Animation(AnimationStyle::Chladni))
    );
    assert_eq!(
        resolve_style(" PLASMA ", None, "anima"),
        Ok(ScreenStyle::Animation(AnimationStyle::Plasma))
    );
    for style in ["game_of_life_oscillators", "game_of_life_bloom"] {
        assert!(resolve_style(style, None, "anima").is_err());
    }
    assert_eq!(resolve_style("static", None, "anima"), Ok(ScreenStyle::Static));
    assert_eq!(resolve_style("Logo", None, "anima"), Ok(ScreenStyle::Logo));
    assert_eq!(
        resolve_style("boids", None, "anima"),
        Ok(ScreenStyle::Animation(AnimationStyle::Boids(BoidsVariant::Predator)))
    );
    assert_eq!(
        resolve_style("nope", None, "yzs"),
        Err("unsupported screen style `nope`. Try `yzs --help`".to_string())
    );
    assert_eq!(screen_styles().len(), 15);
    assert_eq!(screen_random_styles().len(), 13);
}

#[test]
fn random_never_resolves_to_static_or_logo() {
    for index in 0..40 {
        assert!(matches!(
            resolve_style("RANDOM", Some(index), "anima"),
            Ok(ScreenStyle::Animation(_))
        ));
    }
    assert!(matches!(
        resolve_style("random", None, "anima"),
        Ok(ScreenStyle::Animation(_))
    ));
}

#[test]
fn argument_errors_name_the_problem() {
    assert_eq!(
        parse_screen_args(args(&["--cell-style"]), "yzs").unwrap_err(),
        "missing value after --cell-style"
    );
    assert_eq!(
        parse_screen_args(args(&["--duration-seconds"]), "yzs").unwrap_err(),
        "missing value after --duration-seconds"
    );
    assert_eq!(
        parse_screen_args(args(&["--cell-style", " Round "]), "yzs").unwrap_err(),
        "invalid --cell-style value `round`. Expected full_block or dotted"
    );
    assert_eq!(
        parse_screen_args(args(&["--duration-seconds", "soon"]), "yzs").unwrap_err(),
        "invalid --duration-seconds value `soon`. Expected positive integer"
    );
    assert_eq!(
        parse_screen_args(args(&["--duration-seconds", "0"]), "yzs").unwrap_err(),
        "invalid --duration-seconds value `0`. Expected positive integer"
    );
    assert_eq!(
        parse_screen_args(args(&["matrix", "plasma"]), "yzs").unwrap_err(),
        "unexpected argument `plasma`. Try `yzs --help`"
    );
    let defaults = parse_screen_args(Vec::new(), "yzs").unwrap();
    assert_eq!(defaults.style, "random");
    assert_eq!(defaults.cell_style, GameOfLifeCellStyle::FullBlock);
    assert_eq!(defaults.duration_seconds, None);
    assert!(!defaults.help);
    assert!(parse_screen_args(args(&["-h"]), "yzs").unwrap().help);
    assert!(parse_screen_args(args(&["help"]), "yzs").unwrap().help);
    assert_eq!(
        parse_screen_args(args(&["--duration-seconds", " 12 "]), "yzs")
            .unwrap()
            .duration_seconds,
        Some(12)
    );
}

#[test]
fn cell_styles_parse_ignoring_case_and_spaces() {
    assert_eq!(
        GameOfLifeCellStyle::parse(" FULL_BLOCK "),
        Ok(GameOfLifeCellStyle::FullBlock)
    );
    assert_eq!(GameOfLifeCellStyle::parse("dotted"), Ok(GameOfLifeCellStyle::Dotted));
    let error = GameOfLifeCellStyle::parse(" Hex ").unwrap_err();
    assert_eq!(error.normalized(), "hex");
}

#[test]
fn the_command_prints_help_or_shows_a_style() {
    let help = screen_help_text("yzs");
    assert!(help.starts_with("Show Yazelix terminal screen animations\n\nUsage:\n  yzs [STYLE]"));
    assert!(help.contains("Styles:\n  static\n  logo\n  aquarium\n  boids\n"));
    assert!(help.contains("game_of_life_tumblers\n  random\n\nNotes:\n"));
    assert!(help.ends_with("Static and logo: any key = exit\n"));
    assert_eq!(
        run_screen_cli(args(&["--help"]), "yzs"),
        Ok(ScreenCommand::Help(help))
    );
    assert_eq!(
        run_screen_cli(args(&["matrix", "--duration-seconds", "2"]), "yzs"),
        Ok(ScreenCommand::Show {
            style: ScreenStyle::Animation(AnimationStyle::Matrix),
            cell_style: GameOfLifeCellStyle::FullBlock,
            duration_seconds: Some(2),
        })
    );
    assert_eq!(
        run_screen_cli(args(&["not-a-style"]), "anima"),
        Err("unsupported screen style `not-a-style`. Try `anima --help`".to_string())
    );
    assert_eq!(
        run_screen_cli(args(&["a", "b"]), "anima"),
        Err("unexpected argument `b`. Try `anima --help`".to_string())
    );
    assert!(matches!(
        run_screen_cli(Vec::new(), "yzs"),
        Ok(ScreenCommand::Show {
            style: ScreenStyle::Animation(_),
            ..
        })
    ));
}

#[test]
fn browsing_keys_switch_and_other_keys_exit() {
    let style = AnimationStyle::Matrix;
    assert_eq!(react_to_input(style, Some(InputAction::Exit), true), Reaction::Exit);
    assert_eq!(
        react_to_input(style, Some(InputAction::Next), false),
        Reaction::Switch(AnimationStyle::GameOfLife(GameOfLifeVariant::Gliders))
    );
    assert_eq!(
        react_to_input(AnimationStyle::Aquarium, Some(InputAction::Previous), false),
        Reaction::Switch(AnimationStyle::GameOfLife(GameOfLifeVariant::Tumblers))
    );
    assert_eq!(react_to_input(style, None, true), Reaction::Resize);
    assert_eq!(react_to_input(style, None, false), Reaction::Keep);
}

#[test]
fn canvases_and_cadences_follow_the_style() {
    assert_eq!(size_class(43), "narrow");
    assert_eq!(size_class(44), "medium");
    assert_eq!(size_class(72), "wide");
    assert_eq!(size_class(120), "hero");
    let full = full_screen_context(80, 24);
    assert_eq!((full.inner_width, full.resolved_height, full.size_class), (80, 24, "wide"));
    assert_eq!(game_of_life_context(100, 30, 40).inner_width, 94);
    assert_eq!(
        context_for_style(AnimationStyle::GameOfLife(GameOfLifeVariant::Gliders), 100, 30, 40)
            .inner_width,
        94
    );
    assert_eq!(context_for_style(AnimationStyle::Plasma, 100, 30, 40).inner_width, 100);
    assert_eq!(frame_delay(AnimationStyle::Aquarium), Some(40));
    assert_eq!(frame_delay(AnimationStyle::Boids(BoidsVariant::Schools)), Some(70));
    assert_eq!(frame_delay(AnimationStyle::FriendsAndEnemies), Some(55));
    assert_eq!(frame_delay(AnimationStyle::Matrix), Some(55));
    assert_eq!(
        frame_delay(AnimationStyle::GameOfLife(GameOfLifeVariant::Tumblers)),
        Some(160)
    );
    assert_eq!(
        animation_credit(AnimationStyle::Physarum),
        ("Physarum", "Based on the model by Jeff Jones")
    );
}

#[test]
fn input_polls_stop_on_shutdown_and_time_out_or_read() {
    assert_eq!(after_poll(true, true, false), PollStep::Exit);
    assert_eq!(after_poll(false, false, true), PollStep::NoInput);
    assert_eq!(after_poll(false, false, false), PollStep::WaitAgain);
    assert_eq!(after_poll(true, false, true), PollStep::Read);
    assert_eq!(
        after_read(Some(press(KeyName::Char('n')))),
        ReadStep::Act(InputAction::Next)
    );
    assert_eq!(
        after_read(Some(KeyPress {
            name: KeyName::Left,
            plain: true,
            release: true,
        })),
        ReadStep::KeepWaiting
    );
    assert_eq!(after_read(None), ReadStep::CheckOnce);
}

#[test]
fn the_player_waits_for_the_earliest_deadline() {
    assert_eq!(next_wait(40, None, None), 40);
    assert_eq!(next_wait(40, Some(33), None), 33);
    assert_eq!(next_wait(40, Some(33), Some(5)), 5);
    assert_eq!(next_wait(10, Some(33), Some(50)), 10);
}

#[test]
fn resolving_a_name_resolves_its_normal_form() {
    let names = [
        "  Plasma\t",
        "MATRIX",
        " Boids_Schools ",
        "\nrandom ",
        "Nope ",
        "  ",
        " Game_Of_Life_Tumblers",
    ];
    for raw in names {
        let normal = raw.trim().to_ascii_lowercase();
        for index in [0usize, 5, 12, 40] {
            assert_eq!(
                resolve_style(raw, Some(index), "anima"),
                resolve_style(&normal, Some(index), "anima"),
                "{raw:?} at {index}"
            );
        }
    }
}

#[test]
fn turns_finish_advance_or_show_the_current_frame() {
    assert_eq!(turn_start(Some(0), 0), TurnStart::Finish);
    assert_eq!(turn_start(Some(0), 500), TurnStart::Finish);
    assert_eq!(turn_start(Some(1), 0), TurnStart::AdvanceFrame);
    assert_eq!(turn_start(None, 0), TurnStart::AdvanceFrame);
    assert_eq!(turn_start(None, 33_000_000), TurnStart::ShowCurrent);
    assert_eq!(turn_start(Some(10), 1), TurnStart::ShowCurrent);
}
