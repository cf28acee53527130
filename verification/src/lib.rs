//! Terminal screen primitives shared by Yazelix front-door animation surfaces.

pub mod aquarium;
pub mod card_widths;
pub mod cards;
pub mod chladni;
pub mod context;
pub mod friends_and_enemies;
pub mod gallery;
pub mod matrix;
pub mod physarum;
pub mod plasma;
pub mod primordial;
pub mod random;
pub mod scalar_field;
pub mod screen;
pub mod screen_runner;
pub mod terminal_control;
pub mod text;

pub use aquarium::{aquarium_frame_delay, AQUARIUM_STYLE};
pub use chladni::{chladni_frame_delay, CHLADNI_STYLE};
pub use context::{ScreenAnimationContext, ScreenFrameProducer};
pub use friends_and_enemies::FRIENDS_AND_ENEMIES_STYLE;
pub use matrix::{matrix_frame_delay, MatrixAnimation, MATRIX_STYLE};
pub use physarum::{physarum_frame_delay, PHYSARUM_STYLE};
pub use plasma::{plasma_frame_delay, PLASMA_STYLE};
pub use primordial::{primordial_frame_delay, PRIMORDIAL_STYLE};
pub use random::{
    boids_random_styles, game_of_life_random_styles, random_animation_slot_count,
    random_animation_styles, resolve_random_animation_style, MANDELBROT_STYLE,
};
pub use screen::{HalfBlockField, RgbColor, ScreenCell, ScreenFrame};
pub use screen_runner::{
    run_screen_cli, screen_random_styles, screen_styles, BoidsVariant, GameOfLifeCellStyle,
    GameOfLifeCellStyleParseError, ASCIQUARIUM_STYLE, LOGO_STYLE, STATIC_STYLE,
};
pub use terminal_control::{enter_screen_mode, leave_screen_mode, screen_frame_output};
pub use text::{center_frame_lines, center_text, visible_line_width};
