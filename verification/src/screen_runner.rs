//! The `yzs` command's decisions: which style a name selects, how arguments
//! parse, how browsing moves between animations, and what the welcome and
//! identity cards contain.

use vstd::prelude::*;

use crate::random::system_random_index;
use crate::text::{chars_equal, normalize, normalized, push_chars, push_str, string_from_chars};

verus! {

/// Compatibility spelling for the native Aquarium.
pub const ASCIQUARIUM_STYLE: &'static str = "asciiquarium";

pub const STATIC_STYLE: &'static str = "static";

pub const LOGO_STYLE: &'static str = "logo";

pub const RANDOM_STYLE: &'static str = "random";

pub const BOIDS_STYLE: &'static str = "boids";

pub const GAME_OF_LIFE_TUMBLERS_STYLE: &'static str = "game_of_life_tumblers";

/// The two Boids variants.
#[derive(Debug, Clone, Copy, PartialEq, Eq, Structural)]
pub enum BoidsVariant {
    Predator,
    Schools,
}

impl BoidsVariant {
    /// The variant a normalized style name selects; `boids` is the predator.
    pub fn from_style_name(name: &str) -> (variant: Option<BoidsVariant>)
        ensures
            variant == boids_variant_for(name@),
    {
        let chars = crate::text::str_chars(name);
        if chars_equal(&chars, BOIDS_STYLE) || chars_equal(&chars, crate::random::BOIDS_PREDATOR_STYLE) {
            Some(BoidsVariant::Predator)
        } else if chars_equal(&chars, crate::random::BOIDS_SCHOOLS_STYLE) {
            Some(BoidsVariant::Schools)
        } else {
            None
        }
    }
}

pub open spec fn boids_variant_for(name: Seq<char>) -> Option<BoidsVariant> {
    if name == BOIDS_STYLE@ || name == crate::random::BOIDS_PREDATOR_STYLE@ {
        Some(BoidsVariant::Predator)
    } else if name == crate::random::BOIDS_SCHOOLS_STYLE@ {
        Some(BoidsVariant::Schools)
    } else {
        None
    }
}

/// The Game of Life patterns the command offers.
#[derive(Debug, Clone, Copy, PartialEq, Eq, Structural)]
pub enum GameOfLifeVariant {
    Gliders,
    Tumblers,
}

/// A native animation.
#[derive(Debug, Clone, Copy, PartialEq, Eq, Structural)]
pub enum AnimationStyle {
    Aquarium,
    Boids(BoidsVariant),
    GameOfLife(GameOfLifeVariant),
    FriendsAndEnemies,
    Primordial,
    Physarum,
    Chladni,
    Plasma,
    Mandelbrot,
    Matrix,
}

/// What a style name selects.
#[derive(Debug, Clone, Copy, PartialEq, Eq, Structural)]
pub enum ScreenStyle {
    Static,
    Logo,
    Animation(AnimationStyle),
}

/// The style a normalized name selects, `random` aside.
pub open spec fn style_for(name: Seq<char>) -> Option<ScreenStyle> {
    if name == STATIC_STYLE@ {
        Some(ScreenStyle::Static)
    } else if name == LOGO_STYLE@ {
        Some(ScreenStyle::Logo)
    } else if name == crate::aquarium::AQUARIUM_STYLE@ || name == ASCIQUARIUM_STYLE@ {
        Some(ScreenStyle::Animation(AnimationStyle::Aquarium))
    } else if boids_variant_for(name) is Some {
        Some(ScreenStyle::Animation(AnimationStyle::Boids(boids_variant_for(name)->0)))
    } else if name == crate::random::MANDELBROT_STYLE@ {
        Some(ScreenStyle::Animation(AnimationStyle::Mandelbrot))
    } else if name == crate::friends_and_enemies::FRIENDS_AND_ENEMIES_STYLE@ {
        Some(ScreenStyle::Animation(AnimationStyle::FriendsAndEnemies))
    } else if name == crate::primordial::PRIMORDIAL_STYLE@ {
        Some(ScreenStyle::Animation(AnimationStyle::Primordial))
    } else if name == crate::physarum::PHYSARUM_STYLE@ {
        Some(ScreenStyle::Animation(AnimationStyle::Physarum))
    } else if name == crate::chladni::CHLADNI_STYLE@ {
        Some(ScreenStyle::Animation(AnimationStyle::Chladni))
    } else if name == crate::plasma::PLASMA_STYLE@ {
        Some(ScreenStyle::Animation(AnimationStyle::Plasma))
    } else if name == crate::matrix::MATRIX_STYLE@ {
        Some(ScreenStyle::Animation(AnimationStyle::Matrix))
    } else if name == crate::random::GAME_OF_LIFE_GLIDERS_STYLE@ {
        Some(ScreenStyle::Animation(AnimationStyle::GameOfLife(GameOfLifeVariant::Gliders)))
    } else if name == GAME_OF_LIFE_TUMBLERS_STYLE@ {
        Some(ScreenStyle::Animation(AnimationStyle::GameOfLife(GameOfLifeVariant::Tumblers)))
    } else {
        None
    }
}

pub open spec fn unsupported_style_message(name: Seq<char>, command_name: Seq<char>) -> Seq<char> {
    "unsupported screen style `"@ + name + "`. Try `"@ + command_name + " --help`"@
}

/// The outcome of resolving an already normalized, non-random name.
pub open spec fn resolve_named(name: Seq<char>, command_name: Seq<char>) -> Result<ScreenStyle, Seq<char>> {
    match style_for(name) {
        Some(style) => Ok(style),
        None => Err(unsupported_style_message(name, command_name)),
    }
}

/// Every style name the command lists, in listing order.
pub open spec fn screen_style_names() -> Seq<Seq<char>> {
    seq![
        STATIC_STYLE@,
        LOGO_STYLE@,
        crate::aquarium::AQUARIUM_STYLE@,
        BOIDS_STYLE@,
        crate::random::BOIDS_PREDATOR_STYLE@,
        crate::random::BOIDS_SCHOOLS_STYLE@,
        crate::friends_and_enemies::FRIENDS_AND_ENEMIES_STYLE@,
        crate::primordial::PRIMORDIAL_STYLE@,
        crate::physarum::PHYSARUM_STYLE@,
        crate::chladni::CHLADNI_STYLE@,
        crate::plasma::PLASMA_STYLE@,
        crate::random::MANDELBROT_STYLE@,
        crate::matrix::MATRIX_STYLE@,
        crate::random::GAME_OF_LIFE_GLIDERS_STYLE@,
        GAME_OF_LIFE_TUMBLERS_STYLE@,
    ]
}

/// The style names `random` picks from, in order.
pub open spec fn screen_random_style_names() -> Seq<Seq<char>> {
    screen_style_names().skip(2)
}

pub open spec fn strs_view(strs: Seq<&'static str>) -> Seq<Seq<char>> {
    strs.map_values(|s: &'static str| s@)
}

/// Every style name the command lists.
pub fn screen_styles() -> (styles: Vec<&'static str>)
    ensures
        strs_view(styles@) == screen_style_names(),
{
    let styles = vec![
        STATIC_STYLE,
        LOGO_STYLE,
        crate::aquarium::AQUARIUM_STYLE,
        BOIDS_STYLE,
        crate::random::BOIDS_PREDATOR_STYLE,
        crate::random::BOIDS_SCHOOLS_STYLE,
        crate::friends_and_enemies::FRIENDS_AND_ENEMIES_STYLE,
        crate::primordial::PRIMORDIAL_STYLE,
        crate::physarum::PHYSARUM_STYLE,
        crate::chladni::CHLADNI_STYLE,
        crate::plasma::PLASMA_STYLE,
        crate::random::MANDELBROT_STYLE,
        crate::matrix::MATRIX_STYLE,
        crate::random::GAME_OF_LIFE_GLIDERS_STYLE,
        GAME_OF_LIFE_TUMBLERS_STYLE,
    ];
    assert(strs_view(styles@) =~= screen_style_names());
    styles
}

/// The style names `random` picks from: every listed style but `static` and `logo`.
pub fn screen_random_styles() -> (styles: Vec<&'static str>)
    ensures
        strs_view(styles@) == screen_random_style_names(),
{
    let styles = vec![
        crate::aquarium::AQUARIUM_STYLE,
        BOIDS_STYLE,
        crate::random::BOIDS_PREDATOR_STYLE,
        crate::random::BOIDS_SCHOOLS_STYLE,
        crate::friends_and_enemies::FRIENDS_AND_ENEMIES_STYLE,
        crate::primordial::PRIMORDIAL_STYLE,
        crate::physarum::PHYSARUM_STYLE,
        crate::chladni::CHLADNI_STYLE,
        crate::plasma::PLASMA_STYLE,
        crate::random::MANDELBROT_STYLE,
        crate::matrix::MATRIX_STYLE,
        crate::random::GAME_OF_LIFE_GLIDERS_STYLE,
        GAME_OF_LIFE_TUMBLERS_STYLE,
    ];
    assert(strs_view(styles@) =~= screen_random_style_names());
    styles
}

/// The name `random` picks for `random_index`, or for a clock-derived index.
pub fn random_screen_style(random_index: Option<usize>) -> (style: &'static str)
    ensures
        random_index matches Some(i) ==> style@ == screen_random_style_names()[(i % 13) as int],
        random_index is None ==> exists|i: int| 0 <= i < 13 && style@ == screen_random_style_names()[i],
{
    let styles = screen_random_styles();
    assert(screen_random_style_names().len() == 13);
    assert(styles@.len() == strs_view(styles@).len());
    let index = match random_index {
        Some(i) => i,
        None => system_random_index(styles.len()),
    };
    let style = styles[index % styles.len()];
    assert(style@ == strs_view(styles@)[(index % 13) as int]);
    style
}

/// The style a normalized, non-random name selects, or the error naming it.
fn resolve_normalized(name: &Vec<char>, command_name: &str) -> (resolved: Result<ScreenStyle, String>)
    ensures
        match resolved {
            Ok(style) => resolve_named(name@, command_name@) == Ok::<ScreenStyle, Seq<char>>(style),
            Err(message) => resolve_named(name@, command_name@) == Err::<ScreenStyle, Seq<char>>(message@),
        },
{
    if chars_equal(name, STATIC_STYLE) {
        return Ok(ScreenStyle::Static);
    }
    if chars_equal(name, LOGO_STYLE) {
        return Ok(ScreenStyle::Logo);
    }
    if chars_equal(name, crate::aquarium::AQUARIUM_STYLE) || chars_equal(name, ASCIQUARIUM_STYLE) {
        return Ok(ScreenStyle::Animation(AnimationStyle::Aquarium));
    }
    let text = string_from_chars(name.clone());
    assert(text@ == name@);
    if let Some(variant) = BoidsVariant::from_style_name(text.as_str()) {
        return Ok(ScreenStyle::Animation(AnimationStyle::Boids(variant)));
    }
    if chars_equal(name, crate::random::MANDELBROT_STYLE) {
        return Ok(ScreenStyle::Animation(AnimationStyle::Mandelbrot));
    }
    if chars_equal(name, crate::friends_and_enemies::FRIENDS_AND_ENEMIES_STYLE) {
        return Ok(ScreenStyle::Animation(AnimationStyle::FriendsAndEnemies));
    }
    if chars_equal(name, crate::primordial::PRIMORDIAL_STYLE) {
        return Ok(ScreenStyle::Animation(AnimationStyle::Primordial));
    }
    if chars_equal(name, crate::physarum::PHYSARUM_STYLE) {
        return Ok(ScreenStyle::Animation(AnimationStyle::Physarum));
    }
    if chars_equal(name, crate::chladni::CHLADNI_STYLE) {
        return Ok(ScreenStyle::Animation(AnimationStyle::Chladni));
    }
    if chars_equal(name, crate::plasma::PLASMA_STYLE) {
        return Ok(ScreenStyle::Animation(AnimationStyle::Plasma));
    }
    if chars_equal(name, crate::matrix::MATRIX_STYLE) {
        return Ok(ScreenStyle::Animation(AnimationStyle::Matrix));
    }
    if chars_equal(name, crate::random::GAME_OF_LIFE_GLIDERS_STYLE) {
        return Ok(ScreenStyle::Animation(AnimationStyle::GameOfLife(GameOfLifeVariant::Gliders)));
    }
    if chars_equal(name, GAME_OF_LIFE_TUMBLERS_STYLE) {
        return Ok(ScreenStyle::Animation(AnimationStyle::GameOfLife(GameOfLifeVariant::Tumblers)));
    }
    let mut message: Vec<char> = Vec::new();
    push_str(&mut message, "unsupported screen style `");
    push_chars(&mut message, name);
    push_str(&mut message, "`. Try `");
    push_str(&mut message, command_name);
    push_str(&mut message, " --help`");
    Err(string_from_chars(message))
}

/// What `raw` selects: names are trimmed and compared case-insensitively, and
/// `random` resolves the name picked for `random_index` (or from the clock).
pub open spec fn resolve_spec(raw: Seq<char>, random_name: Seq<char>, command_name: Seq<char>) -> Result<
    ScreenStyle,
    Seq<char>,
> {
    if normalized(raw) == RANDOM_STYLE@ {
        resolve_named(normalized(random_name), command_name)
    } else {
        resolve_named(normalized(raw), command_name)
    }
}

pub open spec fn result_view(resolved: Result<ScreenStyle, String>) -> Result<ScreenStyle, Seq<char>> {
    match resolved {
        Ok(style) => Ok(style),
        Err(message) => Err(message@),
    }
}

/// Resolves a style name.
pub fn resolve_style(raw: &str, random_index: Option<usize>, command_name: &str) -> (resolved: Result<ScreenStyle, String>)
    ensures
        random_index matches Some(i) ==> result_view(resolved) == resolve_spec(
            raw@,
            screen_random_style_names()[(i % 13) as int],
            command_name@,
        ),
        random_index is None ==> exists|i: int|
            0 <= i < 13 && result_view(resolved) == resolve_spec(
                raw@,
                screen_random_style_names()[i],
                command_name@,
            ),
{
    let name = normalize(raw);
    if chars_equal(&name, RANDOM_STYLE) {
        let picked = random_screen_style(random_index);
        let picked_name = normalize(picked);
        let resolved = resolve_normalized(&picked_name, command_name);
        proof {
            if random_index is None {
                let i = choose|i: int| 0 <= i < 13 && picked@ == screen_random_style_names()[i];
                assert(result_view(resolved) == resolve_spec(raw@, screen_random_style_names()[i], command_name@));
            }
        }
        return resolved;
    }
    let resolved = resolve_normalized(&name, command_name);
    proof {
        if random_index is None {
            assert(result_view(resolved) == resolve_spec(raw@, screen_random_style_names()[0], command_name@));
        }
    }
    resolved
}

/// A name without surrounding whitespace or capitals is its own normal form.
pub proof fn lemma_normal_name(s: Seq<char>)
    requires
        s.len() > 0,
        !crate::text::is_whitespace(s[0]),
        !crate::text::is_whitespace(s.last()),
        forall|i: int| 0 <= i < s.len() ==> !('A' <= #[trigger] s[i] <= 'Z'),
    ensures
        normalized(s) == s,
{
    assert(crate::text::trim_start(s) == s);
    assert(crate::text::trim_end(s) == s);
    assert(crate::text::ascii_lower(s) =~= s);
}


/// Resolving a name gives what resolving its normal form gives: surrounding
/// whitespace and capitals never change the selected style or the error.
pub proof fn lemma_resolve_normal_form(raw: Seq<char>, random_name: Seq<char>, command_name: Seq<char>)
    ensures
        resolve_spec(normalized(raw), random_name, command_name) == resolve_spec(
            raw,
            random_name,
            command_name,
        ),
{
    crate::text::lemma_normalized_idempotent(raw);
}

/// Every listed style name is already in normal form and selects a style.
pub proof fn lemma_listed_styles_resolve(i: int)
    requires
        0 <= i < 15,
    ensures
        normalized(screen_style_names()[i]) == screen_style_names()[i],
        style_for(screen_style_names()[i]) is Some,
        screen_style_names()[i] != RANDOM_STYLE@,
{
    reveal_strlit("static");
    reveal_strlit("logo");
    reveal_strlit("random");
    reveal_strlit("aquarium");
    reveal_strlit("asciiquarium");
    reveal_strlit("boids");
    reveal_strlit("boids_predator");
    reveal_strlit("boids_schools");
    reveal_strlit("friends_and_enemies");
    reveal_strlit("primordial");
    reveal_strlit("physarum");
    reveal_strlit("chladni");
    reveal_strlit("plasma");
    reveal_strlit("mandelbrot");
    reveal_strlit("matrix");
    reveal_strlit("game_of_life_gliders");
    reveal_strlit("game_of_life_tumblers");
    let name = screen_style_names()[i];
    assert(name.len() > 0);
    assert(!crate::text::is_whitespace(name[0]));
    assert(!crate::text::is_whitespace(name.last()));
    assert forall|k: int| 0 <= k < name.len() implies !('A' <= #[trigger] name[k] <= 'Z') by {}
    lemma_normal_name(name);
}

/// Every listed style resolves, whatever the command is called.
pub proof fn lemma_every_listed_style_resolves(i: int, command_name: Seq<char>)
    requires
        0 <= i < 15,
    ensures
        resolve_spec(screen_style_names()[i], screen_random_style_names()[0], command_name) is Ok,
{
    lemma_listed_styles_resolve(i);
}

/// `random` always selects an animation, never the static or logo card.
pub proof fn lemma_random_selects_animation(i: int, raw: Seq<char>, command_name: Seq<char>)
    requires
        0 <= i < 13,
        normalized(raw) == RANDOM_STYLE@,
    ensures
        resolve_spec(raw, screen_random_style_names()[i], command_name) matches Ok(
            ScreenStyle::Animation(_),
        ),
{
    lemma_listed_styles_resolve(i + 2);
    reveal_strlit("static");
    reveal_strlit("logo");
    reveal_strlit("random");
    reveal_strlit("aquarium");
    reveal_strlit("asciiquarium");
    reveal_strlit("boids");
    reveal_strlit("boids_predator");
    reveal_strlit("boids_schools");
    reveal_strlit("friends_and_enemies");
    reveal_strlit("primordial");
    reveal_strlit("physarum");
    reveal_strlit("chladni");
    reveal_strlit("plasma");
    reveal_strlit("mandelbrot");
    reveal_strlit("matrix");
    reveal_strlit("game_of_life_gliders");
    reveal_strlit("game_of_life_tumblers");
    assert(screen_random_style_names()[i] == screen_style_names()[i + 2]);
}

/// The compatibility spelling selects the same aquarium.
pub proof fn lemma_asciiquarium_alias(random_name: Seq<char>, command_name: Seq<char>)
    ensures
        resolve_spec(ASCIQUARIUM_STYLE@, random_name, command_name) == resolve_spec(
            crate::aquarium::AQUARIUM_STYLE@,
            random_name,
            command_name,
        ),
        resolve_spec(ASCIQUARIUM_STYLE@, random_name, command_name) == Ok::<ScreenStyle, Seq<char>>(
            ScreenStyle::Animation(AnimationStyle::Aquarium),
        ),
{
    reveal_strlit("static");
    reveal_strlit("logo");
    reveal_strlit("random");
    reveal_strlit("aquarium");
    reveal_strlit("asciiquarium");
    reveal_strlit("boids");
    reveal_strlit("boids_predator");
    reveal_strlit("boids_schools");
    reveal_strlit("friends_and_enemies");
    reveal_strlit("primordial");
    reveal_strlit("physarum");
    reveal_strlit("chladni");
    reveal_strlit("plasma");
    reveal_strlit("mandelbrot");
    reveal_strlit("matrix");
    reveal_strlit("game_of_life_gliders");
    reveal_strlit("game_of_life_tumblers");
    lemma_listed_styles_resolve(2);
    let alias = ASCIQUARIUM_STYLE@;
    assert(!crate::text::is_whitespace(alias[0]));
    assert(!crate::text::is_whitespace(alias.last()));
    assert forall|k: int| 0 <= k < alias.len() implies !('A' <= #[trigger] alias[k] <= 'Z') by {}
    lemma_normal_name(alias);
}

/// `boids` is another name for the predator variant.
pub proof fn lemma_boids_alias(random_name: Seq<char>, command_name: Seq<char>)
    ensures
        resolve_spec(BOIDS_STYLE@, random_name, command_name) == resolve_spec(
            crate::random::BOIDS_PREDATOR_STYLE@,
            random_name,
            command_name,
        ),
        resolve_spec(BOIDS_STYLE@, random_name, command_name) == Ok::<ScreenStyle, Seq<char>>(
            ScreenStyle::Animation(AnimationStyle::Boids(BoidsVariant::Predator)),
        ),
{
    lemma_listed_styles_resolve(3);
    lemma_listed_styles_resolve(4);
    reveal_strlit("static");
    reveal_strlit("logo");
    reveal_strlit("random");
    reveal_strlit("aquarium");
    reveal_strlit("asciiquarium");
    reveal_strlit("boids");
    reveal_strlit("boids_predator");
}

/// The animation each of `random`'s slots shows: every browsable animation
/// once, except the Boids predator, which `boids` and `boids_predator` both name.
pub open spec fn random_slot_animations() -> Seq<AnimationStyle> {
    seq![
        AnimationStyle::Aquarium,
        AnimationStyle::Boids(BoidsVariant::Predator),
        AnimationStyle::Boids(BoidsVariant::Predator),
        AnimationStyle::Boids(BoidsVariant::Schools),
        AnimationStyle::FriendsAndEnemies,
        AnimationStyle::Primordial,
        AnimationStyle::Physarum,
        AnimationStyle::Chladni,
        AnimationStyle::Plasma,
        AnimationStyle::Mandelbrot,
        AnimationStyle::Matrix,
        AnimationStyle::GameOfLife(GameOfLifeVariant::Gliders),
        AnimationStyle::GameOfLife(GameOfLifeVariant::Tumblers),
    ]
}

/// What `random` resolves to in slot `i`.
pub proof fn lemma_random_slot(i: int, raw: Seq<char>, command_name: Seq<char>)
    requires
        0 <= i < 13,
        normalized(raw) == RANDOM_STYLE@,
    ensures
        resolve_spec(raw, screen_random_style_names()[i], command_name) == Ok::<
            ScreenStyle,
            Seq<char>,
        >(ScreenStyle::Animation(random_slot_animations()[i])),
{
    lemma_random_selects_animation(i, raw, command_name);
    lemma_listed_styles_resolve(i + 2);
    reveal_strlit("static");
    reveal_strlit("logo");
    reveal_strlit("random");
    reveal_strlit("aquarium");
    reveal_strlit("asciiquarium");
    reveal_strlit("boids");
    reveal_strlit("boids_predator");
    reveal_strlit("boids_schools");
    reveal_strlit("friends_and_enemies");
    reveal_strlit("primordial");
    reveal_strlit("physarum");
    reveal_strlit("chladni");
    reveal_strlit("plasma");
    reveal_strlit("mandelbrot");
    reveal_strlit("matrix");
    reveal_strlit("game_of_life_gliders");
    reveal_strlit("game_of_life_tumblers");
    assert(screen_random_style_names()[i] == screen_style_names()[i + 2]);
}

/// How Game of Life cells are drawn.
#[derive(Debug, Clone, Copy, PartialEq, Eq, Structural)]
pub enum GameOfLifeCellStyle {
    FullBlock,
    Dotted,
}

/// A cell-style name that names no style; holds the name as normalized.
#[derive(Debug, Clone, PartialEq, Eq)]
pub struct GameOfLifeCellStyleParseError {
    normalized: String,
}

impl GameOfLifeCellStyleParseError {
    pub closed spec fn name(self) -> Seq<char> {
        self.normalized@
    }

    /// The rejected name, trimmed and lower-cased.
    pub fn normalized(&self) -> (name: String)
        ensures
            name@ == self.name(),
    {
        self.normalized.clone()
    }
}

pub open spec fn cell_style_for(name: Seq<char>) -> Option<GameOfLifeCellStyle> {
    if name == "full_block"@ {
        Some(GameOfLifeCellStyle::FullBlock)
    } else if name == "dotted"@ {
        Some(GameOfLifeCellStyle::Dotted)
    } else {
        None
    }
}

impl GameOfLifeCellStyle {
    /// Reads `full_block` or `dotted`, ignoring surrounding whitespace and case.
    pub fn parse(raw: &str) -> (parsed: Result<GameOfLifeCellStyle, GameOfLifeCellStyleParseError>)
        ensures
            match parsed {
                Ok(style) => cell_style_for(normalized(raw@)) == Some(style),
                Err(error) => cell_style_for(normalized(raw@)) is None && error.name() == normalized(
                    raw@,
                ),
            },
    {
        let name = normalize(raw);
        if chars_equal(&name, "full_block") {
            Ok(GameOfLifeCellStyle::FullBlock)
        } else if chars_equal(&name, "dotted") {
            Ok(GameOfLifeCellStyle::Dotted)
        } else {
            Err(GameOfLifeCellStyleParseError { normalized: string_from_chars(name) })
        }
    }
}

/// Parsed command-line arguments.
#[derive(Debug, Clone, PartialEq, Eq)]
pub struct ScreenArgs {
    pub style: String,
    pub cell_style: GameOfLifeCellStyle,
    /// Whole seconds to run before exiting on its own.
    pub duration_seconds: Option<u64>,
    pub help: bool,
}

/// The argument parser's state after some of the arguments.
pub ghost struct ArgsState {
    pub help: bool,
    pub style: Option<Seq<char>>,
    pub cell_style: GameOfLifeCellStyle,
    pub duration_seconds: Option<u64>,
}

pub open spec fn initial_args_state() -> ArgsState {
    ArgsState {
        help: false,
        style: None,
        cell_style: GameOfLifeCellStyle::FullBlock,
        duration_seconds: None,
    }
}

pub open spec fn is_help_flag(arg: Seq<char>) -> bool {
    arg == "-h"@ || arg == "--help"@ || arg == "help"@
}

/// Parsing `args` from position `i` on, in `state`: flags take the following
/// argument as their value, the first other argument is the style, and any
/// further one is an error.
pub open spec fn parse_args_from(
    args: Seq<Seq<char>>,
    i: nat,
    state: ArgsState,
    command_name: Seq<char>,
) -> Result<ArgsState, Seq<char>>
    decreases args.len() - i,
{
    if i >= args.len() {
        Ok(state)
    } else {
        let arg = args[i as int];
        if is_help_flag(arg) {
            parse_args_from(args, i + 1, ArgsState { help: true, ..state }, command_name)
        } else if arg == "--cell-style"@ {
            if i + 1 >= args.len() {
                Err("missing value after --cell-style"@)
            } else {
                let raw = args[(i + 1) as int];
                match cell_style_for(normalized(raw)) {
                    Some(cell_style) => parse_args_from(
                        args,
                        i + 2,
                        ArgsState { cell_style, ..state },
                        command_name,
                    ),
                    None => Err(
                        "invalid --cell-style value `"@ + normalized(raw)
                            + "`. Expected full_block or dotted"@,
                    ),
                }
            }
        } else if arg == "--duration-seconds"@ {
            if i + 1 >= args.len() {
                Err("missing value after --duration-seconds"@)
            } else {
                let raw = args[(i + 1) as int];
                match crate::text::parse_u64_spec(crate::text::trimmed(raw)) {
                    None => Err(
                        "invalid --duration-seconds value `"@ + raw + "`. Expected positive integer"@,
                    ),
                    Some(seconds) => if seconds == 0 {
                        Err("invalid --duration-seconds value `0`. Expected positive integer"@)
                    } else {
                        parse_args_from(
                            args,
                            i + 2,
                            ArgsState { duration_seconds: Some(seconds), ..state },
                            command_name,
                        )
                    },
                }
            }
        } else if state.style is None {
            parse_args_from(args, i + 1, ArgsState { style: Some(arg), ..state }, command_name)
        } else {
            Err("unexpected argument `"@ + arg + "`. Try `"@ + command_name + " --help`"@)
        }
    }
}

pub open spec fn args_view(args: Seq<String>) -> Seq<Seq<char>> {
    args.map_values(|a: String| a@)
}

/// The arguments `args` denote: no style means `random`.
pub open spec fn parse_args_spec(args: Seq<Seq<char>>, command_name: Seq<char>) -> Result<
    (Seq<char>, GameOfLifeCellStyle, Option<u64>, bool),
    Seq<char>,
> {
    match parse_args_from(args, 0, initial_args_state(), command_name) {
        Ok(state) => Ok(
            (
                match state.style {
                    Some(s) => s,
                    None => RANDOM_STYLE@,
                },
                state.cell_style,
                state.duration_seconds,
                state.help,
            ),
        ),
        Err(message) => Err(message),
    }
}

proof fn lemma_parse_then_help(
    args: Seq<Seq<char>>,
    i: nat,
    state: ArgsState,
    command_name: Seq<char>,
    flag: Seq<char>,
)
    requires
        is_help_flag(flag),
        i <= args.len(),
        parse_args_from(args, i, state, command_name) is Ok,
    ensures
        parse_args_from(args.push(flag), i, state, command_name) == Ok::<ArgsState, Seq<char>>(
            ArgsState { help: true, ..parse_args_from(args, i, state, command_name)->Ok_0 },
        ),
    decreases args.len() - i,
{
    let longer = args.push(flag);
    if i == args.len() {
        assert(longer[i as int] == flag);
        let helped = ArgsState { help: true, ..state };
        assert(parse_args_from(longer, i + 1, helped, command_name) == Ok::<ArgsState, Seq<char>>(
            helped,
        ));
    } else {
        let arg = args[i as int];
        assert(longer[i as int] == arg);
        if i + 1 < args.len() {
            assert(longer[(i + 1) as int] == args[(i + 1) as int]);
        }
        if is_help_flag(arg) {
            lemma_parse_then_help(args, i + 1, ArgsState { help: true, ..state }, command_name, flag);
        } else if arg == "--cell-style"@ {
            let raw = args[(i + 1) as int];
            let cell_style = cell_style_for(normalized(raw))->Some_0;
            lemma_parse_then_help(args, i + 2, ArgsState { cell_style, ..state }, command_name, flag);
        } else if arg == "--duration-seconds"@ {
            let raw = args[(i + 1) as int];
            let seconds = crate::text::parse_u64_spec(crate::text::trimmed(raw))->Some_0;
            lemma_parse_then_help(
                args,
                i + 2,
                ArgsState { duration_seconds: Some(seconds), ..state },
                command_name,
                flag,
            );
        } else {
            lemma_parse_then_help(args, i + 1, ArgsState { style: Some(arg), ..state }, command_name, flag);
        }
    }
}

proof fn lemma_help_comes_from_a_flag(
    args: Seq<Seq<char>>,
    i: nat,
    state: ArgsState,
    command_name: Seq<char>,
)
    requires
        parse_args_from(args, i, state, command_name) matches Ok(done) && done.help,
    ensures
        state.help || exists|k: int| i <= k < args.len() && is_help_flag(#[trigger] args[k]),
    decreases args.len() - i,
{
    if i < args.len() {
        let arg = args[i as int];
        if is_help_flag(arg) {
        } else if arg == "--cell-style"@ {
            let raw = args[(i + 1) as int];
            let cell_style = cell_style_for(normalized(raw))->Some_0;
            lemma_help_comes_from_a_flag(args, i + 2, ArgsState { cell_style, ..state }, command_name);
        } else if arg == "--duration-seconds"@ {
            let raw = args[(i + 1) as int];
            let seconds = crate::text::parse_u64_spec(crate::text::trimmed(raw))->Some_0;
            lemma_help_comes_from_a_flag(
                args,
                i + 2,
                ArgsState { duration_seconds: Some(seconds), ..state },
                command_name,
            );
        } else {
            lemma_help_comes_from_a_flag(args, i + 1, ArgsState { style: Some(arg), ..state }, command_name);
        }
    }
}

/// A help flag asks for help wherever it stands: adding `-h`, `--help` or
/// `help` after arguments that parse keeps everything they gave and sets
/// help. And help is only ever set by such a flag.
pub proof fn lemma_help_flag_asks_for_help(
    args: Seq<Seq<char>>,
    flag: Seq<char>,
    command_name: Seq<char>,
)
    requires
        flag == "-h"@ || flag == "--help"@ || flag == "help"@,
    ensures
        parse_args_spec(args, command_name) matches Ok((style, cell_style, duration, _))
            ==> parse_args_spec(args.push(flag), command_name) == Ok::<
            (Seq<char>, GameOfLifeCellStyle, Option<u64>, bool),
            Seq<char>,
        >((style, cell_style, duration, true)),
        parse_args_spec(args, command_name) matches Ok((_, _, _, help)) && help ==> exists|k: int|
            0 <= k < args.len() && (args[k] == "-h"@ || args[k] == "--help"@ || args[k]
                == "help"@),
{
    if parse_args_from(args, 0, initial_args_state(), command_name) is Ok {
        lemma_parse_then_help(args, 0, initial_args_state(), command_name, flag);
        let done = parse_args_from(args, 0, initial_args_state(), command_name)->Ok_0;
        if done.help {
            lemma_help_comes_from_a_flag(args, 0, initial_args_state(), command_name);
            let k = choose|k: int| 0 <= k < args.len() && is_help_flag(#[trigger] args[k]);
            assert(0 <= k < args.len() && is_help_flag(args[k]));
        }
    }
}

pub open spec fn parsed_view(parsed: Result<ScreenArgs, String>) -> Result<
    (Seq<char>, GameOfLifeCellStyle, Option<u64>, bool),
    Seq<char>,
> {
    match parsed {
        Ok(a) => Ok((a.style@, a.cell_style, a.duration_seconds, a.help)),
        Err(message) => Err(message@),
    }
}

fn error_text(parts: Vec<&str>, middle: Vec<char>) -> (text: String)
    requires
        parts@.len() == 2,
    ensures
        text@ == parts@[0]@ + middle@ + parts@[1]@,
{
    let mut out: Vec<char> = Vec::new();
    push_str(&mut out, parts[0]);
    push_chars(&mut out, &middle);
    push_str(&mut out, parts[1]);
    string_from_chars(out)
}

/// Parses the command's arguments (without the program name).
pub fn parse_screen_args(args: Vec<String>, command_name: &str) -> (parsed: Result<ScreenArgs, String>)
    ensures
        parsed_view(parsed) == parse_args_spec(args_view(args@), command_name@),
{
    let ghost view = args_view(args@);
    let mut help = false;
    let mut style: Option<String> = None;
    let mut cell_style = GameOfLifeCellStyle::FullBlock;
    let mut duration: Option<u64> = None;
    let mut i: usize = 0;
    while i < args.len()
        invariant
            view == args_view(args@),
            i <= args@.len(),
            parse_args_from(view, 0, initial_args_state(), command_name@) == parse_args_from(
                view,
                i as nat,
                ArgsState {
                    help,
                    style: match style {
                        Some(s) => Some(s@),
                        None => None,
                    },
                    cell_style,
                    duration_seconds: duration,
                },
                command_name@,
            ),
        decreases args.len() - i,
    {
        let arg = str_chars_of(&args[i]);
        assert(arg@ == view[i as int]);
        if chars_equal(&arg, "-h") || chars_equal(&arg, "--help") || chars_equal(&arg, "help") {
            help = true;
            i = i + 1;
        } else if chars_equal(&arg, "--cell-style") {
            if i + 1 >= args.len() {
                return Err(string_from_chars(crate::text::str_chars("missing value after --cell-style")));
            }
            match GameOfLifeCellStyle::parse(args[i + 1].as_str()) {
                Ok(parsed_style) => {
                    cell_style = parsed_style;
                    i = i + 2;
                },
                Err(error) => {
                    let name = crate::text::str_chars(error.normalized().as_str());
                    return Err(
                        error_text(
                            vec!["invalid --cell-style value `", "`. Expected full_block or dotted"],
                            name,
                        ),
                    );
                },
            }
        } else if chars_equal(&arg, "--duration-seconds") {
            if i + 1 >= args.len() {
                return Err(string_from_chars(crate::text::str_chars("missing value after --duration-seconds")));
            }
            let raw = str_chars_of(&args[i + 1]);
            let trimmed = crate::text::trim_chars(&raw);
            match crate::text::parse_u64(&trimmed) {
                None => {
                    return Err(
                        error_text(
                            vec!["invalid --duration-seconds value `", "`. Expected positive integer"],
                            raw,
                        ),
                    );
                },
                Some(seconds) => {
                    if seconds == 0 {
                        return Err(
                            string_from_chars(
                                crate::text::str_chars(
                                    "invalid --duration-seconds value `0`. Expected positive integer",
                                ),
                            ),
                        );
                    }
                    duration = Some(seconds);
                    i = i + 2;
                },
            }
        } else if style.is_none() {
            style = Some(string_from_chars(arg));
            i = i + 1;
        } else {
            let mut out: Vec<char> = Vec::new();
            push_str(&mut out, "unexpected argument `");
            push_chars(&mut out, &arg);
            push_str(&mut out, "`. Try `");
            push_str(&mut out, command_name);
            push_str(&mut out, " --help`");
            return Err(string_from_chars(out));
        }
    }
    let style = match style {
        Some(s) => s,
        None => string_from_chars(crate::text::str_chars(RANDOM_STYLE)),
    };
    Ok(ScreenArgs { style, cell_style, duration_seconds: duration, help })
}

fn str_chars_of(text: &String) -> (chars: Vec<char>)
    ensures
        chars@ == text@,
{
    crate::text::str_chars(text.as_str())
}

/// What a key press asks for while an animation plays.
#[derive(Debug, Clone, Copy, PartialEq, Eq, Structural)]
pub enum InputAction {
    Exit,
    Previous,
    Next,
}

/// The key of a key event, as far as browsing cares.
#[derive(Debug, Clone, Copy, PartialEq, Eq, Structural)]
pub enum KeyName {
    Left,
    Right,
    Char(char),
    Other,
}

/// A key event: which key, whether no modifier was held, and whether it is a release.
#[derive(Debug, Clone, Copy, PartialEq, Eq, Structural)]
pub struct KeyPress {
    pub name: KeyName,
    pub plain: bool,
    pub release: bool,
}

pub open spec fn key_action_spec(key: KeyPress) -> Option<InputAction> {
    if key.release {
        None
    } else if key.plain && (key.name == KeyName::Left || key.name == KeyName::Char('h')
        || key.name == KeyName::Char('p')) {
        Some(InputAction::Previous)
    } else if key.plain && (key.name == KeyName::Right || key.name == KeyName::Char('l')
        || key.name == KeyName::Char('n')) {
        Some(InputAction::Next)
    } else {
        Some(InputAction::Exit)
    }
}

/// What each key press does while an animation plays: a release does
/// nothing, and every press gives an action. An unmodified Left, `h` or `p`
/// goes back, an unmodified Right, `l` or `n` goes forward, and every other
/// press (any other key, or any key with a modifier held) exits.
pub proof fn lemma_key_actions(key: KeyPress)
    ensures
        key.release <==> key_action_spec(key) is None,
        !key.release && key.plain && (key.name == KeyName::Left || key.name == KeyName::Char('h')
            || key.name == KeyName::Char('p')) ==> key_action_spec(key) == Some(
            InputAction::Previous,
        ),
        !key.release && key.plain && (key.name == KeyName::Right || key.name == KeyName::Char('l')
            || key.name == KeyName::Char('n')) ==> key_action_spec(key) == Some(InputAction::Next),
        !key.release && !key.plain ==> key_action_spec(key) == Some(InputAction::Exit),
        !key.release && key.name == KeyName::Other ==> key_action_spec(key) == Some(
            InputAction::Exit,
        ),
        forall|c: char|
            !key.release && key.name == KeyName::Char(c) && c != 'h' && c != 'p' && c != 'l' && c
                != 'n' ==> key_action_spec(key) == Some(InputAction::Exit),
{
}

/// Releases are ignored; unmodified Left, `h`, `p` go back, unmodified Right,
/// `l`, `n` go forward, and any other key exits.
pub fn key_action(key: KeyPress) -> (action: Option<InputAction>)
    ensures
        action == key_action_spec(key),
{
    if key.release {
        return None;
    }
    let previous = match key.name {
        KeyName::Left => true,
        KeyName::Char(c) => c == 'h' || c == 'p',
        _ => false,
    };
    let next = match key.name {
        KeyName::Right => true,
        KeyName::Char(c) => c == 'l' || c == 'n',
        _ => false,
    };
    if key.plain && previous {
        Some(InputAction::Previous)
    } else if key.plain && next {
        Some(InputAction::Next)
    } else {
        Some(InputAction::Exit)
    }
}

/// The browsing order of the native animations.
pub open spec fn animation_order() -> Seq<AnimationStyle> {
    seq![
        AnimationStyle::Aquarium,
        AnimationStyle::Boids(BoidsVariant::Predator),
        AnimationStyle::Boids(BoidsVariant::Schools),
        AnimationStyle::FriendsAndEnemies,
        AnimationStyle::Primordial,
        AnimationStyle::Physarum,
        AnimationStyle::Chladni,
        AnimationStyle::Plasma,
        AnimationStyle::Mandelbrot,
        AnimationStyle::Matrix,
        AnimationStyle::GameOfLife(GameOfLifeVariant::Gliders),
        AnimationStyle::GameOfLife(GameOfLifeVariant::Tumblers),
    ]
}

/// The position of `style` in the browsing order.
pub open spec fn animation_position(style: AnimationStyle) -> nat {
    match style {
        AnimationStyle::Aquarium => 0,
        AnimationStyle::Boids(BoidsVariant::Predator) => 1,
        AnimationStyle::Boids(BoidsVariant::Schools) => 2,
        AnimationStyle::FriendsAndEnemies => 3,
        AnimationStyle::Primordial => 4,
        AnimationStyle::Physarum => 5,
        AnimationStyle::Chladni => 6,
        AnimationStyle::Plasma => 7,
        AnimationStyle::Mandelbrot => 8,
        AnimationStyle::Matrix => 9,
        AnimationStyle::GameOfLife(GameOfLifeVariant::Gliders) => 10,
        AnimationStyle::GameOfLife(GameOfLifeVariant::Tumblers) => 11,
    }
}

/// Every animation has exactly one place in the browsing order.
pub proof fn lemma_animation_position(style: AnimationStyle)
    ensures
        animation_position(style) < 12,
        animation_order()[animation_position(style) as int] == style,
        forall|i: int| 0 <= i < 12 && animation_order()[i] == style ==> i == animation_position(style),
{
}

/// The native animations in browsing order.
pub fn animation_styles() -> (styles: Vec<AnimationStyle>)
    ensures
        styles@ == animation_order(),
{
    let styles = vec![
        AnimationStyle::Aquarium,
        AnimationStyle::Boids(BoidsVariant::Predator),
        AnimationStyle::Boids(BoidsVariant::Schools),
        AnimationStyle::FriendsAndEnemies,
        AnimationStyle::Primordial,
        AnimationStyle::Physarum,
        AnimationStyle::Chladni,
        AnimationStyle::Plasma,
        AnimationStyle::Mandelbrot,
        AnimationStyle::Matrix,
        AnimationStyle::GameOfLife(GameOfLifeVariant::Gliders),
        AnimationStyle::GameOfLife(GameOfLifeVariant::Tumblers),
    ];
    assert(styles@ =~= animation_order());
    styles
}

pub open spec fn browse_spec(style: AnimationStyle, action: InputAction) -> AnimationStyle {
    match action {
        InputAction::Exit => style,
        InputAction::Next => animation_order()[((animation_position(style) + 1) % 12) as int],
        InputAction::Previous => animation_order()[((animation_position(style) + 11) % 12) as int],
    }
}

/// The animation before or after `style` in browsing order, wrapping around;
/// `Exit` keeps `style`.
pub fn browse_style(style: AnimationStyle, action: InputAction) -> (next: AnimationStyle)
    ensures
        next == browse_spec(style, action),
{
    let styles = animation_styles();
    let count = styles.len();
    let offset = match action {
        InputAction::Previous => count - 1,
        InputAction::Next => 1,
        InputAction::Exit => {
            return style;
        },
    };
    proof {
        lemma_animation_position(style);
    }
    let mut index: usize = 0;
    while index < count && styles[index] != style
        invariant
            styles@ == animation_order(),
            count == 12,
            index <= animation_position(style),
            forall|k: int| 0 <= k < index ==> styles@[k] != style,
        decreases count - index,
    {
        index = index + 1;
    }
    assert(index == animation_position(style));
    styles[(index + offset) % count]
}

/// Going forward then back (or back then forward) returns to the same animation.
pub proof fn lemma_browse_round_trip(style: AnimationStyle)
    ensures
        browse_spec(browse_spec(style, InputAction::Next), InputAction::Previous) == style,
        browse_spec(browse_spec(style, InputAction::Previous), InputAction::Next) == style,
{
    lemma_animation_position(style);
    lemma_animation_position(browse_spec(style, InputAction::Next));
    lemma_animation_position(browse_spec(style, InputAction::Previous));
}

/// `style` moved forward `steps` times.
pub open spec fn browse_forward(style: AnimationStyle, steps: nat) -> AnimationStyle
    decreases steps,
{
    if steps == 0 {
        style
    } else {
        browse_spec(browse_forward(style, (steps - 1) as nat), InputAction::Next)
    }
}

proof fn lemma_browse_forward_position(style: AnimationStyle, steps: nat)
    ensures
        animation_position(browse_forward(style, steps)) == (animation_position(style) + steps)
            % 12,
    decreases steps,
{
    lemma_animation_position(style);
    if steps > 0 {
        lemma_browse_forward_position(style, (steps - 1) as nat);
        let prior = browse_forward(style, (steps - 1) as nat);
        lemma_animation_position(prior);
        lemma_animation_position(browse_forward(style, steps));
        let start = animation_position(style);
        assert((((start + (steps - 1)) % 12) + 1) % 12 == (start + steps) % 12) by (nonlinear_arith)
            requires
                start >= 0,
                steps >= 1,
        ;
    }
}

/// Steps forward from `from` until `to` is reached.
pub open spec fn browse_distance(from: AnimationStyle, to: AnimationStyle) -> nat {
    ((animation_position(to) + 12 - animation_position(from)) % 12) as nat
}

proof fn lemma_same_position(a: AnimationStyle, b: AnimationStyle)
    requires
        animation_position(a) == animation_position(b),
    ensures
        a == b,
{
    lemma_animation_position(a);
    lemma_animation_position(b);
}

proof fn lemma_browse_reaches(style: AnimationStyle, other: AnimationStyle)
    ensures
        browse_distance(style, other) < 12,
        browse_forward(style, browse_distance(style, other)) == other,
{
    let from = animation_position(style);
    let to = animation_position(other);
    lemma_animation_position(style);
    lemma_animation_position(other);
    let k = browse_distance(style, other);
    if to >= from {
        assert(to + 12 - from == (to - from) + 12);
        vstd::arithmetic::div_mod::lemma_mod_add_multiples_vanish((to - from) as int, 12);
        vstd::arithmetic::div_mod::lemma_small_mod((to - from) as nat, 12);
        assert(k == to - from);
    } else {
        vstd::arithmetic::div_mod::lemma_small_mod((to + 12 - from) as nat, 12);
        assert(k == to + 12 - from);
    }
    lemma_browse_forward_position(style, k);
    if to >= from {
        vstd::arithmetic::div_mod::lemma_small_mod(to as nat, 12);
    } else {
        vstd::arithmetic::div_mod::lemma_mod_add_multiples_vanish(to as int, 12);
        vstd::arithmetic::div_mod::lemma_small_mod(to as nat, 12);
        assert(from + k == to + 12);
    }
    lemma_same_position(browse_forward(style, k), other);
}

/// Browsing forward passes every animation and is back after twelve steps.
pub proof fn lemma_browse_cycle(style: AnimationStyle)
    ensures
        browse_forward(style, 12) == style,
        forall|other: AnimationStyle|
            browse_distance(style, other) < 12 && #[trigger] browse_forward(
                style,
                browse_distance(style, other),
            ) == other,
{
    lemma_animation_position(style);
    lemma_browse_forward_position(style, 12);
    lemma_same_position(browse_forward(style, 12), style);
    assert forall|other: AnimationStyle|
        browse_distance(style, other) < 12 && #[trigger] browse_forward(
            style,
            browse_distance(style, other),
        ) == other by {
        lemma_browse_reaches(style, other);
    }
}

/// `narrow`, `medium`, `wide` or `hero` by terminal width.
pub fn size_class(width: usize) -> (class: &'static str)
    ensures
        class@ == size_class_spec(width as nat),
{
    if width < 44 {
        "narrow"
    } else if width < 72 {
        "medium"
    } else if width < 120 {
        "wide"
    } else {
        "hero"
    }
}

pub open spec fn size_class_spec(width: nat) -> Seq<char> {
    if width < 44 {
        "narrow"@
    } else if width < 72 {
        "medium"@
    } else if width < 120 {
        "wide"@
    } else {
        "hero"@
    }
}

/// The whole terminal as canvas.
pub fn full_screen_context(width: usize, height: usize) -> (context: crate::context::ScreenAnimationContext)
    ensures
        context.resolved_width == width,
        context.resolved_height == height,
        context.inner_width == width,
        context.size_class@ == size_class_spec(width as nat),
{
    crate::context::ScreenAnimationContext {
        resolved_width: width,
        resolved_height: height,
        inner_width: width,
        size_class: size_class(width),
    }
}

/// The Game of Life canvas: six columns narrower than the terminal, but never
/// below the pattern's minimum width.
pub fn game_of_life_context(width: usize, height: usize, minimum_inner_width: usize) -> (context:
    crate::context::ScreenAnimationContext)
    ensures
        context.resolved_width == width,
        context.resolved_height == height,
        context.inner_width == if width >= 6 && width - 6 >= minimum_inner_width {
            (width - 6) as nat
        } else {
            minimum_inner_width as nat
        },
        context.size_class@ == size_class_spec(width as nat),
{
    let inner = width.saturating_sub(6);
    crate::context::ScreenAnimationContext {
        resolved_width: width,
        resolved_height: height,
        inner_width: if inner >= minimum_inner_width {
            inner
        } else {
            minimum_inner_width
        },
        size_class: size_class(width),
    }
}

/// The canvas for `style`: Game of Life gets its own, everything else the full screen.
pub fn context_for_style(
    style: AnimationStyle,
    width: usize,
    height: usize,
    game_of_life_minimum_inner_width: usize,
) -> (context: crate::context::ScreenAnimationContext)
    ensures
        style is GameOfLife ==> context.inner_width == if width >= 6 && width - 6
            >= game_of_life_minimum_inner_width {
            (width - 6) as nat
        } else {
            game_of_life_minimum_inner_width as nat
        },
        !(style is GameOfLife) ==> context.inner_width == width,
        context.resolved_width == width,
        context.resolved_height == height,
        context.size_class@ == size_class_spec(width as nat),
{
    match style {
        AnimationStyle::GameOfLife(_) => game_of_life_context(
            width,
            height,
            game_of_life_minimum_inner_width,
        ),
        _ => full_screen_context(width, height),
    }
}

/// Milliseconds between frames of `style`. The Mandelbrot cadence belongs to
/// the Mandelbrot renderer, which this library does not hold, so none is
/// given for it here.
pub fn frame_delay(style: AnimationStyle) -> (millis: Option<u64>)
    ensures
        millis == match style {
            AnimationStyle::Aquarium => Some(40u64),
            AnimationStyle::Boids(_) => Some(70u64),
            AnimationStyle::FriendsAndEnemies => Some(55u64),
            AnimationStyle::Primordial => Some(40u64),
            AnimationStyle::Physarum => Some(40u64),
            AnimationStyle::Chladni => Some(40u64),
            AnimationStyle::Plasma => Some(40u64),
            AnimationStyle::Mandelbrot => None,
            AnimationStyle::Matrix => Some(55u64),
            AnimationStyle::GameOfLife(_) => Some(160u64),
        },
{
    match style {
        AnimationStyle::Aquarium => Some(crate::aquarium::aquarium_frame_delay()),
        AnimationStyle::Boids(_) => Some(70),
        AnimationStyle::FriendsAndEnemies => Some(55),
        AnimationStyle::Primordial => Some(crate::primordial::primordial_frame_delay()),
        AnimationStyle::Physarum => Some(crate::physarum::physarum_frame_delay()),
        AnimationStyle::Chladni => Some(crate::chladni::chladni_frame_delay()),
        AnimationStyle::Plasma => Some(crate::plasma::plasma_frame_delay()),
        AnimationStyle::Mandelbrot => None,
        AnimationStyle::Matrix => Some(crate::matrix::matrix_frame_delay()),
        AnimationStyle::GameOfLife(_) => Some(160),
    }
}

/// The title and credit shown on an animation's identity card.
pub fn animation_credit(style: AnimationStyle) -> (credit: (&'static str, &'static str))
    ensures
        credit.0@ == credit_spec(style).0,
        credit.1@ == credit_spec(style).1,
{
    match style {
        AnimationStyle::Aquarium => ("Aquarium", "Original art and motion by Anima"),
        AnimationStyle::Boids(BoidsVariant::Predator) => ("Boids: Predator", "Model by Craig Reynolds"),
        AnimationStyle::Boids(BoidsVariant::Schools) => ("Boids: Schools", "Model by Craig Reynolds"),
        AnimationStyle::GameOfLife(GameOfLifeVariant::Gliders) => ("Game of Life: Gliders", "Created by John Conway"),
        AnimationStyle::GameOfLife(GameOfLifeVariant::Tumblers) => ("Game of Life: Tumblers", "Created by John Conway"),
        AnimationStyle::FriendsAndEnemies => ("Friends and Enemies", "Particle rule by Simon Woods"),
        AnimationStyle::Primordial => ("Primordial", "Model by Thomas Schmickl, Martin Stefanec and Karl Crailsheim"),
        AnimationStyle::Physarum => ("Physarum", "Based on the model by Jeff Jones"),
        AnimationStyle::Chladni => ("Chladni", "Equations documented by Paul Bourke"),
        AnimationStyle::Plasma => ("Plasma", "Technique documented by Lode Vandevenne"),
        AnimationStyle::Mandelbrot => ("Mandelbrot", "Fractal research by Beno\u{ee}t Mandelbrot"),
        AnimationStyle::Matrix => ("Matrix", "Original rain design by Simon Whiteley"),
    }
}

pub open spec fn credit_spec(style: AnimationStyle) -> (Seq<char>, Seq<char>) {
    match style {
        AnimationStyle::Aquarium => ("Aquarium"@, "Original art and motion by Anima"@),
        AnimationStyle::Boids(BoidsVariant::Predator) => ("Boids: Predator"@, "Model by Craig Reynolds"@),
        AnimationStyle::Boids(BoidsVariant::Schools) => ("Boids: Schools"@, "Model by Craig Reynolds"@),
        AnimationStyle::GameOfLife(GameOfLifeVariant::Gliders) => ("Game of Life: Gliders"@, "Created by John Conway"@),
        AnimationStyle::GameOfLife(GameOfLifeVariant::Tumblers) => ("Game of Life: Tumblers"@, "Created by John Conway"@),
        AnimationStyle::FriendsAndEnemies => ("Friends and Enemies"@, "Particle rule by Simon Woods"@),
        AnimationStyle::Primordial => ("Primordial"@, "Model by Thomas Schmickl, Martin Stefanec and Karl Crailsheim"@),
        AnimationStyle::Physarum => ("Physarum"@, "Based on the model by Jeff Jones"@),
        AnimationStyle::Chladni => ("Chladni"@, "Equations documented by Paul Bourke"@),
        AnimationStyle::Plasma => ("Plasma"@, "Technique documented by Lode Vandevenne"@),
        AnimationStyle::Mandelbrot => ("Mandelbrot"@, "Fractal research by Beno\u{ee}t Mandelbrot"@),
        AnimationStyle::Matrix => ("Matrix"@, "Original rain design by Simon Whiteley"@),
    }
}


/// `names` separated by `separator`.
pub open spec fn joined(names: Seq<Seq<char>>, separator: Seq<char>) -> Seq<char>
    decreases names.len(),
{
    if names.len() == 0 {
        Seq::empty()
    } else if names.len() == 1 {
        names[0]
    } else {
        joined(names.drop_last(), separator) + separator + names.last()
    }
}

pub open spec fn help_text_spec(command_name: Seq<char>) -> Seq<char> {
    "Show Yazelix terminal screen animations\n\nUsage:\n  "@ + command_name
        + " [STYLE] [--cell-style full_block|dotted] [--duration-seconds N]\n\nStyles:\n  "@
        + joined(screen_style_names(), "\n  "@) + "\n  random\n\nNotes:\n  asciiquarium is a compatibility alias for native aquarium (not the classic renderer)\n  Animations, including Aquarium: Left/h/p = previous; Right/l/n = next; any other key = exit\n  Static and logo: any key = exit\n"@
}

/// The command's help: usage, every style, and the keys.
pub fn screen_help_text(command_name: &str) -> (help: String)
    ensures
        help@ == help_text_spec(command_name@),
{
    let styles = screen_styles();
    let mut out: Vec<char> = Vec::new();
    push_str(&mut out, "Show Yazelix terminal screen animations\n\nUsage:\n  ");
    push_str(&mut out, command_name);
    push_str(
        &mut out,
        " [STYLE] [--cell-style full_block|dotted] [--duration-seconds N]\n\nStyles:\n  ",
    );
    let ghost head = out@;
    let ghost names = strs_view(styles@);
    let mut i: usize = 0;
    while i < styles.len()
        invariant
            i <= styles@.len(),
            names == strs_view(styles@),
            names == screen_style_names(),
            out@ == head + joined(names.take(i as int), "\n  "@),
        decreases styles.len() - i,
    {
        let ghost before = out@;
        if i > 0 {
            push_str(&mut out, "\n  ");
        }
        push_str(&mut out, styles[i]);
        proof {
            let taken = names.take(i + 1);
            assert(taken.drop_last() =~= names.take(i as int));
            assert(taken.last() == styles@[i as int]@);
            if i == 0 {
                assert(names.take(0) =~= Seq::<Seq<char>>::empty());
                assert(out@ =~= head + joined(taken, "\n  "@));
            } else {
                assert(out@ =~= head + joined(taken, "\n  "@));
            }
        }
        i = i + 1;
    }
    proof {
        assert(names.take(i as int) =~= names);
    }
    push_str(
        &mut out,
        "\n  random\n\nNotes:\n  asciiquarium is a compatibility alias for native aquarium (not the classic renderer)\n  Animations, including Aquarium: Left/h/p = previous; Right/l/n = next; any other key = exit\n  Static and logo: any key = exit\n",
    );
    string_from_chars(out)
}

/// What the command does: print its help, or show a style.
#[derive(Debug, Clone, PartialEq, Eq)]
pub enum ScreenCommand {
    Help(String),
    Show {
        style: ScreenStyle,
        cell_style: GameOfLifeCellStyle,
        /// Whole seconds to show the style for; `None` runs until a key exits.
        duration_seconds: Option<u64>,
    },
}

/// What the command does when run with `args`, given the name of a style for
/// `random` (`random_name`).
pub open spec fn command_spec(
    args: Seq<Seq<char>>,
    command_name: Seq<char>,
    random_name: Seq<char>,
    command: Result<ScreenCommand, String>,
) -> bool {
    match parse_args_spec(args, command_name) {
        Err(message) => command matches Err(e) && e@ == message,
        Ok(parsed) => if parsed.3 {
            command matches Ok(ScreenCommand::Help(text)) && text@ == help_text_spec(command_name)
        } else {
            match resolve_spec(parsed.0, random_name, command_name) {
                Ok(style) => command == Ok::<ScreenCommand, String>(
                    ScreenCommand::Show {
                        style,
                        cell_style: parsed.1,
                        duration_seconds: parsed.2,
                    },
                ),
                Err(message) => command matches Err(e) && e@ == message,
            }
        },
    }
}

/// Decides what the command does for `args` (without the program name):
/// argument errors and unknown styles are reported, help is printed when
/// asked for, and otherwise the named style is shown; `random` picks one of
/// the listed animations by the clock.
pub fn run_screen_cli(args: Vec<String>, command_name: &str) -> (command: Result<
    ScreenCommand,
    String,
>)
    ensures
        exists|i: int|
            0 <= i < 13 && command_spec(
                args_view(args@),
                command_name@,
                screen_random_style_names()[i],
                command,
            ),
{
    let parsed = match parse_screen_args(args, command_name) {
        Ok(parsed) => parsed,
        Err(message) => {
            proof {
                assert(command_spec(
                    args_view(args@),
                    command_name@,
                    screen_random_style_names()[0],
                    Err::<ScreenCommand, String>(message),
                ));
            }
            return Err(message);
        },
    };
    if parsed.help {
        let command = Ok(ScreenCommand::Help(screen_help_text(command_name)));
        proof {
            assert(command_spec(
                args_view(args@),
                command_name@,
                screen_random_style_names()[0],
                command,
            ));
        }
        return command;
    }
    let resolved = resolve_style(parsed.style.as_str(), None, command_name);
    let command = match resolved {
        Ok(style) => Ok(
            ScreenCommand::Show {
                style,
                cell_style: parsed.cell_style,
                duration_seconds: parsed.duration_seconds,
            },
        ),
        Err(message) => Err(message),
    };
    proof {
        let i = choose|i: int|
            0 <= i < 13 && result_view(resolved) == resolve_spec(
                parsed.style@,
                screen_random_style_names()[i],
                command_name@,
            );
        assert(command_spec(args_view(args@), command_name@, screen_random_style_names()[i], command));
    }
    command
}

/// What a running animation does next.
#[derive(Debug, Clone, Copy, PartialEq, Eq, Structural)]
pub enum Reaction {
    /// Stop playing.
    Exit,
    /// Start over with another animation, sized to the terminal as it is now.
    Switch(AnimationStyle),
    /// Keep the animation but fit it to the terminal's new size.
    Resize,
    /// Carry on.
    Keep,
}

pub open spec fn reaction_spec(
    style: AnimationStyle,
    action: Option<InputAction>,
    resized: bool,
) -> Reaction {
    match action {
        Some(InputAction::Exit) => Reaction::Exit,
        Some(a) => Reaction::Switch(browse_spec(style, a)),
        None => if resized {
            Reaction::Resize
        } else {
            Reaction::Keep
        },
    }
}

/// The player's decision after waiting for input: a key to exit stops, a
/// browsing key switches to the neighbouring animation, and otherwise a
/// changed terminal size resizes the current one.
pub fn react_to_input(style: AnimationStyle, action: Option<InputAction>, resized: bool) -> (reaction:
    Reaction)
    ensures
        reaction == reaction_spec(style, action, resized),
{
    match action {
        Some(InputAction::Exit) => Reaction::Exit,
        Some(a) => Reaction::Switch(browse_style(style, a)),
        None => if resized {
            Reaction::Resize
        } else {
            Reaction::Keep
        },
    }
}


/// What the input poll does after waiting once for an event.
#[derive(Debug, Clone, Copy, PartialEq, Eq, Structural)]
pub enum PollStep {
    /// Shutdown was requested or the terminal went away: exit.
    Exit,
    /// The whole timeout passed without an event.
    NoInput,
    /// Nothing yet, but time is left: wait again.
    WaitAgain,
    /// An event is ready to be read.
    Read,
}

/// After one wait: stopping wins; without an event, the poll ends once its
/// last wait is over and waits again otherwise; with one, the event is read.
pub fn after_poll(ready: bool, stopping: bool, last_wait: bool) -> (step: PollStep)
    ensures
        step == if stopping {
            PollStep::Exit
        } else if !ready {
            if last_wait {
                PollStep::NoInput
            } else {
                PollStep::WaitAgain
            }
        } else {
            PollStep::Read
        },
{
    if stopping {
        PollStep::Exit
    } else if !ready {
        if last_wait {
            PollStep::NoInput
        } else {
            PollStep::WaitAgain
        }
    } else {
        PollStep::Read
    }
}

/// What the input poll does with an event it read.
#[derive(Debug, Clone, Copy, PartialEq, Eq, Structural)]
pub enum ReadStep {
    /// A key that asks for something.
    Act(InputAction),
    /// A key that asks for nothing (a release): keep waiting out the timeout.
    KeepWaiting,
    /// Not a key (a resize, a mouse event): check once more without waiting.
    CheckOnce,
}

pub fn after_read(key: Option<KeyPress>) -> (step: ReadStep)
    ensures
        step == match key {
            Some(k) => match key_action_spec(k) {
                Some(action) => ReadStep::Act(action),
                None => ReadStep::KeepWaiting,
            },
            None => ReadStep::CheckOnce,
        },
{
    match key {
        Some(k) => match key_action(k) {
            Some(action) => ReadStep::Act(action),
            None => ReadStep::KeepWaiting,
        },
        None => ReadStep::CheckOnce,
    }
}

/// What a turn of the player loop starts with.
#[derive(Debug, Clone, Copy, PartialEq, Eq, Structural)]
pub enum TurnStart {
    /// The run's time is up: the player stops.
    Finish,
    /// The next frame is due: the animation advances and is rendered again.
    AdvanceFrame,
    /// The frame already rendered is shown again.
    ShowCurrent,
}

/// How a turn of the player loop starts, from the nanoseconds left in a timed
/// run (`None` when untimed) and those until the next frame is due.
pub fn turn_start(time_left: Option<u64>, until_frame: u64) -> (start: TurnStart)
    ensures
        start == (if time_left == Some(0u64) {
            TurnStart::Finish
        } else if until_frame == 0 {
            TurnStart::AdvanceFrame
        } else {
            TurnStart::ShowCurrent
        }),
{
    if time_left == Some(0u64) {
        TurnStart::Finish
    } else if until_frame == 0 {
        TurnStart::AdvanceFrame
    } else {
        TurnStart::ShowCurrent
    }
}

/// How long the player waits for input: until the next frame is due, no
/// longer than the shown card's next change, and no longer than the time left.
pub fn next_wait(until_frame: u64, card_change: Option<u64>, time_left: Option<u64>) -> (wait: u64)
    ensures
        wait <= until_frame,
        card_change matches Some(c) ==> wait <= c,
        time_left matches Some(t) ==> wait <= t,
        wait == until_frame || card_change == Some(wait) || time_left == Some(wait),
{
    let mut wait = until_frame;
    if let Some(c) = card_change {
        if c < wait {
            wait = c;
        }
    }
    if let Some(t) = time_left {
        if t < wait {
            wait = t;
        }
    }
    wait
}

} // verus!
