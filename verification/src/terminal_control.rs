//! ANSI command text produced through crossterm, and the frame output built from it.

use vstd::prelude::*;

use crate::screen::RgbColor;
use crate::text::{
    closed, decimal, digit_char, concat, control_sequence, csi, esc, is_ascii_alpha, lemma_concat_push,
    lemma_control_width, lemma_glyph_width, lemma_plain_width, lemma_width_append, push_str,
    string_from_chars, visible_width,
};

verus! {

/// The terminal colors this crate emits.
#[derive(Debug, Clone, Copy, PartialEq, Eq, Structural)]
pub enum TermColor {
    Reset,
    Red,
    White,
    AnsiValue(u8),
    Rgb { r: u8, g: u8, b: u8 },
}

/// The erase commands this crate emits.
#[derive(Debug, Clone, Copy, PartialEq, Eq, Structural)]
pub enum ClearKind {
    All,
    FromCursorDown,
    CurrentLine,
}

/// Characters that may stand between `ESC [` and the final letter.
pub open spec fn parameter_chars(s: Seq<char>) -> bool {
    forall|i: int| 0 <= i < s.len() ==> ('0' <= #[trigger] s[i] <= '9' || s[i] == ';' || s[i] == '?')
}

/// The color part of an SGR parameter list.
pub open spec fn color_params(color: TermColor) -> Seq<char> {
    match color {
        TermColor::Reset => Seq::empty(),
        TermColor::Red => seq!['5', ';', '9'],
        TermColor::White => seq!['5', ';', '1', '5'],
        TermColor::AnsiValue(v) => seq!['5', ';'] + decimal(v as nat),
        TermColor::Rgb { r, g, b } => seq!['2', ';'] + decimal(r as nat) + seq![';'] + decimal(
            g as nat,
        ) + seq![';'] + decimal(b as nat),
    }
}

/// `ESC [ params letter`.
pub open spec fn command_seq(params: Seq<char>, letter: char) -> Seq<char> {
    csi() + params + seq![letter]
}

pub open spec fn foreground_seq(color: TermColor) -> Seq<char> {
    if color == TermColor::Reset {
        command_seq(seq!['3', '9'], 'm')
    } else {
        command_seq(seq!['3', '8', ';'] + color_params(color), 'm')
    }
}

pub open spec fn background_seq(color: TermColor) -> Seq<char> {
    if color == TermColor::Reset {
        command_seq(seq!['4', '9'], 'm')
    } else {
        command_seq(seq!['4', '8', ';'] + color_params(color), 'm')
    }
}

pub open spec fn reset_color_seq() -> Seq<char> {
    command_seq(seq!['0'], 'm')
}

/// Cursor to zero-based column `x`, row `y`.
pub open spec fn move_to_seq(x: nat, y: nat) -> Seq<char> {
    command_seq(decimal(y + 1) + seq![';'] + decimal(x + 1), 'H')
}

pub open spec fn clear_seq(kind: ClearKind) -> Seq<char> {
    match kind {
        ClearKind::All => command_seq(seq!['2'], 'J'),
        ClearKind::FromCursorDown => command_seq(Seq::empty(), 'J'),
        ClearKind::CurrentLine => command_seq(seq!['2'], 'K'),
    }
}

pub open spec fn begin_sync_seq() -> Seq<char> {
    command_seq(seq!['?', '2', '0', '2', '6'], 'h')
}

pub open spec fn end_sync_seq() -> Seq<char> {
    command_seq(seq!['?', '2', '0', '2', '6'], 'l')
}

pub open spec fn rgb(color: RgbColor) -> TermColor {
    TermColor::Rgb { r: color.red, g: color.green, b: color.blue }
}

/// A glyph in a foreground and optional background color, both reset afterwards.
pub open spec fn truecolor_seq(text: char, foreground: RgbColor, background: Option<RgbColor>) -> Seq<
    char,
> {
    foreground_seq(rgb(foreground)) + match background {
        Some(b) => background_seq(rgb(b)),
        None => Seq::empty(),
    } + seq![text] + background_seq(TermColor::Reset) + foreground_seq(TermColor::Reset)
}

/// A glyph in a foreground color, reset afterwards.
pub open spec fn styled_seq(text: char, color: TermColor) -> Seq<char> {
    foreground_seq(color) + seq![text] + foreground_seq(TermColor::Reset)
}

pub open spec fn styled_with_background_seq(text: char, color: TermColor, background: TermColor) -> Seq<
    char,
> {
    foreground_seq(color) + background_seq(background) + seq![text] + background_seq(
        TermColor::Reset,
    ) + foreground_seq(TermColor::Reset)
}

pub open spec fn clear_screen_seq() -> Seq<char> {
    reset_color_seq() + move_to_seq(0, 0) + clear_seq(ClearKind::All)
}

/// The output for row `i` of a frame: cursor to its start, erase (the last row
/// erases everything below as well), the row itself, and a color reset.
pub open spec fn frame_row_seq(frame: Seq<Seq<char>>, i: int) -> Seq<char> {
    move_to_seq(0, i as nat) + clear_seq(
        if i == frame.len() - 1 {
            ClearKind::FromCursorDown
        } else {
            ClearKind::CurrentLine
        },
    ) + frame[i] + reset_color_seq()
}

pub open spec fn frame_output_seq(frame: Seq<Seq<char>>) -> Seq<char> {
    if frame.len() == 0 {
        clear_screen_seq()
    } else {
        reset_color_seq() + concat(Seq::new(frame.len(), |i: int| frame_row_seq(frame, i)))
    }
}

pub open spec fn string_views(lines: Seq<String>) -> Seq<Seq<char>> {
    lines.map_values(|line: String| line@)
}

pub open spec fn enter_screen_mode_seq() -> Seq<char> {
    command_seq(seq!['?', '1', '0', '4', '9'], 'h') + command_seq(seq!['?', '2', '5'], 'l')
        + command_seq(seq!['?', '7'], 'l') + reset_color_seq() + clear_seq(ClearKind::All)
        + move_to_seq(0, 0)
}

pub open spec fn leave_screen_mode_seq() -> Seq<char> {
    reset_color_seq() + command_seq(seq!['?', '7'], 'h') + command_seq(seq!['?', '2', '5'], 'h')
        + command_seq(seq!['?', '1', '0', '4', '9'], 'l')
}

/// Decimal numbers are valid sequence parameters, at least one digit long.
pub proof fn lemma_decimal_params(n: nat)
    ensures
        parameter_chars(decimal(n)),
        decimal(n).len() >= 1,
    decreases n,
{
    if n >= 10 {
        lemma_decimal_params(n / 10);
        let d = decimal(n / 10).push(digit_char(n % 10));
        assert forall|i: int| 0 <= i < d.len() implies ('0' <= #[trigger] d[i] <= '9' || d[i] == ';'
            || d[i] == '?') by {
            if i < d.len() - 1 {
                assert(d[i] == decimal(n / 10)[i]);
            }
        }
    }
}

/// Parameters joined together are still parameters.
pub proof fn lemma_params_append(a: Seq<char>, b: Seq<char>)
    requires
        parameter_chars(a),
        parameter_chars(b),
    ensures
        parameter_chars(a + b),
{
    assert forall|i: int| 0 <= i < (a + b).len() implies ('0' <= #[trigger] (a + b)[i] <= '9' || (a
        + b)[i] == ';' || (a + b)[i] == '?') by {
        if i < a.len() {
            assert((a + b)[i] == a[i]);
        } else {
            assert((a + b)[i] == b[i - a.len()]);
        }
    }
}

/// Every color is written with parameter characters only.
pub proof fn lemma_color_params(color: TermColor)
    ensures
        parameter_chars(color_params(color)),
{
    match color {
        TermColor::AnsiValue(v) => {
            lemma_decimal_params(v as nat);
            lemma_params_append(seq!['5', ';'], decimal(v as nat));
        },
        TermColor::Rgb { r, g, b } => {
            lemma_decimal_params(r as nat);
            lemma_decimal_params(g as nat);
            lemma_decimal_params(b as nat);
            lemma_params_append(seq!['2', ';'], decimal(r as nat));
            lemma_params_append(seq!['2', ';'] + decimal(r as nat), seq![';']);
            lemma_params_append(seq!['2', ';'] + decimal(r as nat) + seq![';'], decimal(g as nat));
            lemma_params_append(
                seq!['2', ';'] + decimal(r as nat) + seq![';'] + decimal(g as nat),
                seq![';'],
            );
            lemma_params_append(
                seq!['2', ';'] + decimal(r as nat) + seq![';'] + decimal(g as nat) + seq![';'],
                decimal(b as nat),
            );
        },
        _ => {},
    }
}

/// A command built from parameter characters and a final letter is a control
/// sequence: it takes no columns.
pub proof fn lemma_command_width(params: Seq<char>, letter: char)
    requires
        parameter_chars(params),
        is_ascii_alpha(letter),
    ensures
        control_sequence(command_seq(params, letter)),
        visible_width(command_seq(params, letter)) == 0,
        closed(command_seq(params, letter)),
{
    let s = command_seq(params, letter);
    assert forall|i: int| 2 <= i < s.len() - 1 implies !is_ascii_alpha(#[trigger] s[i]) by {
        assert(s[i] == params[i - 2]);
    }
    lemma_control_width(s);
}

/// Setting a foreground color takes no columns.
pub proof fn lemma_foreground_width(color: TermColor)
    ensures
        visible_width(foreground_seq(color)) == 0,
        closed(foreground_seq(color)),
{
    lemma_color_params(color);
    lemma_params_append(seq!['3', '8', ';'], color_params(color));
    if color == TermColor::Reset {
        lemma_command_width(seq!['3', '9'], 'm');
    } else {
        lemma_command_width(seq!['3', '8', ';'] + color_params(color), 'm');
    }
}

/// Setting a background color takes no columns.
pub proof fn lemma_background_width(color: TermColor)
    ensures
        visible_width(background_seq(color)) == 0,
        closed(background_seq(color)),
{
    lemma_color_params(color);
    lemma_params_append(seq!['4', '8', ';'], color_params(color));
    if color == TermColor::Reset {
        lemma_command_width(seq!['4', '9'], 'm');
    } else {
        lemma_command_width(seq!['4', '8', ';'] + color_params(color), 'm');
    }
}

/// A colored glyph other than escape occupies exactly one column.
pub proof fn lemma_truecolor_width(text: char, foreground: RgbColor, background: Option<RgbColor>)
    requires
        text != esc(),
    ensures
        visible_width(truecolor_seq(text, foreground, background)) == 1,
        closed(truecolor_seq(text, foreground, background)),
{
    let fg = foreground_seq(rgb(foreground));
    let bg = match background {
        Some(b) => background_seq(rgb(b)),
        None => Seq::empty(),
    };
    lemma_foreground_width(rgb(foreground));
    lemma_foreground_width(TermColor::Reset);
    lemma_background_width(TermColor::Reset);
    match background {
        Some(b) => lemma_background_width(rgb(b)),
        None => {
            lemma_plain_width(bg);
        },
    }
    lemma_glyph_width(text);
    lemma_width_append(fg, bg);
    lemma_width_append(fg + bg, seq![text]);
    lemma_width_append(fg + bg + seq![text], background_seq(TermColor::Reset));
    lemma_width_append(
        fg + bg + seq![text] + background_seq(TermColor::Reset),
        foreground_seq(TermColor::Reset),
    );
}

/// A styled glyph other than escape occupies exactly one column.
pub proof fn lemma_styled_width(text: char, color: TermColor)
    requires
        text != esc(),
    ensures
        visible_width(styled_seq(text, color)) == 1,
        closed(styled_seq(text, color)),
{
    lemma_foreground_width(color);
    lemma_foreground_width(TermColor::Reset);
    lemma_glyph_width(text);
    lemma_width_append(foreground_seq(color), seq![text]);
    lemma_width_append(foreground_seq(color) + seq![text], foreground_seq(TermColor::Reset));
}

/// crossterm's `SetForegroundColor` command text, with color output forced on
/// (`crossterm::style::force_color_output(true)`) so that `NO_COLOR` does not
/// blank it. Claimed: `ESC [ 39 m` for the default color, otherwise
/// `ESC [ 38 ; <color> m` with the color written as `5;N` or `2;R;G;B`.
#[verifier::external_body]
fn set_foreground_color_text(color: TermColor) -> (text: String)
    ensures
        text@ == foreground_seq(color),
{
    crossterm::style::force_color_output(true);
    let color = match color {
        TermColor::Reset => crossterm::style::Color::Reset,
        TermColor::Red => crossterm::style::Color::Red,
        TermColor::White => crossterm::style::Color::White,
        TermColor::AnsiValue(v) => crossterm::style::Color::AnsiValue(v),
        TermColor::Rgb { r, g, b } => crossterm::style::Color::Rgb { r, g, b },
    };
    let mut text = String::new();
    let _ = crossterm::Command::write_ansi(&crossterm::style::SetForegroundColor(color), &mut text);
    text
}

/// crossterm's `SetBackgroundColor` command text, with color output forced on.
/// Claimed: `ESC [ 49 m` for the default color, otherwise `ESC [ 48 ; <color> m`.
#[verifier::external_body]
fn set_background_color_text(color: TermColor) -> (text: String)
    ensures
        text@ == background_seq(color),
{
    crossterm::style::force_color_output(true);
    let color = match color {
        TermColor::Reset => crossterm::style::Color::Reset,
        TermColor::Red => crossterm::style::Color::Red,
        TermColor::White => crossterm::style::Color::White,
        TermColor::AnsiValue(v) => crossterm::style::Color::AnsiValue(v),
        TermColor::Rgb { r, g, b } => crossterm::style::Color::Rgb { r, g, b },
    };
    let mut text = String::new();
    let _ = crossterm::Command::write_ansi(&crossterm::style::SetBackgroundColor(color), &mut text);
    text
}

/// crossterm's `ResetColor` command text. Claimed: `ESC [ 0 m`.
#[verifier::external_body]
fn reset_color_text() -> (text: String)
    ensures
        text@ == reset_color_seq(),
{
    let mut text = String::new();
    let _ = crossterm::Command::write_ansi(&crossterm::style::ResetColor, &mut text);
    text
}

/// crossterm's `MoveTo(x, y)` command text. Claimed: `ESC [ y+1 ; x+1 H` in
/// decimal. crossterm adds one to each coordinate in `u16`, so the largest
/// value is left out.
#[verifier::external_body]
fn move_to_text(x: u16, y: u16) -> (text: String)
    requires
        x < u16::MAX,
        y < u16::MAX,
    ensures
        text@ == move_to_seq(x as nat, y as nat),
{
    let mut text = String::new();
    let _ = crossterm::Command::write_ansi(&crossterm::cursor::MoveTo(x, y), &mut text);
    text
}

/// crossterm's `Clear` command text. Claimed: `ESC [ 2 J` for the whole
/// screen, `ESC [ J` from the cursor down, `ESC [ 2 K` for the current line.
#[verifier::external_body]
fn clear_text(kind: ClearKind) -> (text: String)
    ensures
        text@ == clear_seq(kind),
{
    let kind = match kind {
        ClearKind::All => crossterm::terminal::ClearType::All,
        ClearKind::FromCursorDown => crossterm::terminal::ClearType::FromCursorDown,
        ClearKind::CurrentLine => crossterm::terminal::ClearType::CurrentLine,
    };
    let mut text = String::new();
    let _ = crossterm::Command::write_ansi(&crossterm::terminal::Clear(kind), &mut text);
    text
}

/// crossterm's `BeginSynchronizedUpdate` command text. Claimed: `ESC [ ? 2026 h`.
#[verifier::external_body]
fn begin_synchronized_update_text() -> (text: String)
    ensures
        text@ == begin_sync_seq(),
{
    let mut text = String::new();
    let _ = crossterm::Command::write_ansi(&crossterm::terminal::BeginSynchronizedUpdate, &mut text);
    text
}

/// crossterm's `EndSynchronizedUpdate` command text. Claimed: `ESC [ ? 2026 l`.
#[verifier::external_body]
fn end_synchronized_update_text() -> (text: String)
    ensures
        text@ == end_sync_seq(),
{
    let mut text = String::new();
    let _ = crossterm::Command::write_ansi(&crossterm::terminal::EndSynchronizedUpdate, &mut text);
    text
}

/// crossterm's `EnterAlternateScreen` command text. Claimed: `ESC [ ? 1049 h`.
#[verifier::external_body]
fn enter_alternate_screen_text() -> (text: String)
    ensures
        text@ == command_seq(seq!['?', '1', '0', '4', '9'], 'h'),
{
    let mut text = String::new();
    let _ = crossterm::Command::write_ansi(&crossterm::terminal::EnterAlternateScreen, &mut text);
    text
}

/// crossterm's `LeaveAlternateScreen` command text. Claimed: `ESC [ ? 1049 l`.
#[verifier::external_body]
fn leave_alternate_screen_text() -> (text: String)
    ensures
        text@ == command_seq(seq!['?', '1', '0', '4', '9'], 'l'),
{
    let mut text = String::new();
    let _ = crossterm::Command::write_ansi(&crossterm::terminal::LeaveAlternateScreen, &mut text);
    text
}

/// crossterm's `cursor::Hide` command text. Claimed: `ESC [ ? 25 l`.
#[verifier::external_body]
fn hide_cursor_text() -> (text: String)
    ensures
        text@ == command_seq(seq!['?', '2', '5'], 'l'),
{
    let mut text = String::new();
    let _ = crossterm::Command::write_ansi(&crossterm::cursor::Hide, &mut text);
    text
}

/// crossterm's `cursor::Show` command text. Claimed: `ESC [ ? 25 h`.
#[verifier::external_body]
fn show_cursor_text() -> (text: String)
    ensures
        text@ == command_seq(seq!['?', '2', '5'], 'h'),
{
    let mut text = String::new();
    let _ = crossterm::Command::write_ansi(&crossterm::cursor::Show, &mut text);
    text
}

/// crossterm's `DisableLineWrap` command text. Claimed: `ESC [ ? 7 l`.
#[verifier::external_body]
fn disable_line_wrap_text() -> (text: String)
    ensures
        text@ == command_seq(seq!['?', '7'], 'l'),
{
    let mut text = String::new();
    let _ = crossterm::Command::write_ansi(&crossterm::terminal::DisableLineWrap, &mut text);
    text
}

/// crossterm's `EnableLineWrap` command text. Claimed: `ESC [ ? 7 h`.
#[verifier::external_body]
fn enable_line_wrap_text() -> (text: String)
    ensures
        text@ == command_seq(seq!['?', '7'], 'h'),
{
    let mut text = String::new();
    let _ = crossterm::Command::write_ansi(&crossterm::terminal::EnableLineWrap, &mut text);
    text
}

/// Appends the characters of a command's text.
fn push_text(out: &mut Vec<char>, text: String)
    ensures
        final(out)@ == old(out)@ + text@,
{
    push_str(out, text.as_str());
}

/// Appends `text` in a 24-bit foreground color over an optional 24-bit
/// background, then resets both colors.
pub fn write_truecolor(
    output: &mut Vec<char>,
    text: char,
    foreground: RgbColor,
    background: Option<RgbColor>,
)
    ensures
        final(output)@ == old(output)@ + truecolor_seq(text, foreground, background),
{
    let ghost start = output@;
    push_text(
        output,
        set_foreground_color_text(
            TermColor::Rgb { r: foreground.red, g: foreground.green, b: foreground.blue },
        ),
    );
    if let Some(color) = background {
        push_text(
            output,
            set_background_color_text(
                TermColor::Rgb { r: color.red, g: color.green, b: color.blue },
            ),
        );
    }
    output.push(text);
    push_text(output, set_background_color_text(TermColor::Reset));
    push_text(output, set_foreground_color_text(TermColor::Reset));
    proof {
        assert(output@ =~= start + truecolor_seq(text, foreground, background));
    }
}

/// `text` in `color`, followed by a foreground reset.
pub fn styled(text: char, color: TermColor) -> (out: String)
    ensures
        out@ == styled_seq(text, color),
{
    let mut out: Vec<char> = Vec::new();
    push_text(&mut out, set_foreground_color_text(color));
    out.push(text);
    push_text(&mut out, set_foreground_color_text(TermColor::Reset));
    proof {
        assert(out@ =~= styled_seq(text, color));
    }
    string_from_chars(out)
}

/// `text` in `color` over `background`, followed by background and foreground resets.
pub fn styled_with_background(text: char, color: TermColor, background: TermColor) -> (out: String)
    ensures
        out@ == styled_with_background_seq(text, color, background),
{
    let mut out: Vec<char> = Vec::new();
    push_text(&mut out, set_foreground_color_text(color));
    push_text(&mut out, set_background_color_text(background));
    out.push(text);
    push_text(&mut out, set_background_color_text(TermColor::Reset));
    push_text(&mut out, set_foreground_color_text(TermColor::Reset));
    proof {
        assert(out@ =~= styled_with_background_seq(text, color, background));
    }
    string_from_chars(out)
}

/// Resets colors, homes the cursor and erases the whole screen.
pub fn clear_screen_sequence() -> (out: String)
    ensures
        out@ == clear_screen_seq(),
{
    let mut out: Vec<char> = Vec::new();
    push_text(&mut out, reset_color_text());
    push_text(&mut out, move_to_text(0, 0));
    push_text(&mut out, clear_text(ClearKind::All));
    proof {
        assert(out@ =~= clear_screen_seq());
    }
    string_from_chars(out)
}

/// The text that redraws `frame` in place: each row is addressed by cursor
/// position instead of newlines, and only the last row erases what lies
/// below it. An empty frame clears the screen.
pub fn screen_frame_output(frame: &[String]) -> (out: String)
    requires
        frame@.len() <= u16::MAX,
    ensures
        out@ == frame_output_seq(string_views(frame@)),
{
    if frame.len() == 0 {
        return clear_screen_sequence();
    }
    let ghost view = string_views(frame@);
    let ghost rows = Seq::new(view.len(), |i: int| frame_row_seq(view, i));
    let mut out: Vec<char> = Vec::new();
    push_text(&mut out, reset_color_text());
    let ghost head = out@;
    let mut row: usize = 0;
    while row < frame.len()
        invariant
            row <= frame@.len(),
            frame@.len() <= u16::MAX,
            view == string_views(frame@),
            rows == Seq::new(view.len(), |i: int| frame_row_seq(view, i)),
            out@ == head + concat(rows.take(row as int)),
        decreases frame.len() - row,
    {
        let kind = if row == frame.len() - 1 {
            ClearKind::FromCursorDown
        } else {
            ClearKind::CurrentLine
        };
        let ghost before = out@;
        push_text(&mut out, move_to_text(0, row as u16));
        push_text(&mut out, clear_text(kind));
        push_str(&mut out, frame[row].as_str());
        push_text(&mut out, reset_color_text());
        proof {
            assert(view[row as int] == frame@[row as int]@);
            assert(out@ =~= before + frame_row_seq(view, row as int));
            assert(rows.take(row + 1) =~= rows.take(row as int).push(rows[row as int]));
            lemma_concat_push(rows.take(row as int), rows[row as int]);
        }
        row = row + 1;
    }
    proof {
        assert(rows.take(row as int) =~= rows);
    }
    string_from_chars(out)
}

/// One synchronized terminal update: begin marker, the frame output, the
/// overlay drawn on top, and the end marker.
pub fn synchronized_frame_output(frame: &[String], overlay: &str) -> (out: String)
    requires
        frame@.len() <= u16::MAX,
    ensures
        out@ == begin_sync_seq() + frame_output_seq(string_views(frame@)) + overlay@ + end_sync_seq(),
{
    let mut out: Vec<char> = Vec::new();
    push_text(&mut out, begin_synchronized_update_text());
    push_text(&mut out, screen_frame_output(frame));
    push_str(&mut out, overlay);
    push_text(&mut out, end_synchronized_update_text());
    string_from_chars(out)
}

/// What entering screen mode writes: alternate screen, hidden cursor, no line
/// wrap, reset colors, cleared screen, cursor home.
pub fn enter_screen_mode() -> (out: String)
    ensures
        out@ == enter_screen_mode_seq(),
{
    let mut out: Vec<char> = Vec::new();
    push_text(&mut out, enter_alternate_screen_text());
    push_text(&mut out, hide_cursor_text());
    push_text(&mut out, disable_line_wrap_text());
    push_text(&mut out, reset_color_text());
    push_text(&mut out, clear_text(ClearKind::All));
    push_text(&mut out, move_to_text(0, 0));
    string_from_chars(out)
}

/// What leaving screen mode writes: reset colors, line wrap back on, cursor
/// shown, main screen restored.
pub fn leave_screen_mode() -> (out: String)
    ensures
        out@ == leave_screen_mode_seq(),
{
    let mut out: Vec<char> = Vec::new();
    push_text(&mut out, reset_color_text());
    push_text(&mut out, enable_line_wrap_text());
    push_text(&mut out, show_cursor_text());
    push_text(&mut out, leave_alternate_screen_text());
    string_from_chars(out)
}


/// A terminal size given as text (as in an environment variable): after
/// trimming, an unsigned decimal number above zero that fits a `usize`.
pub open spec fn dimension_override_spec(raw: Seq<char>) -> Option<usize> {
    match crate::text::parse_u64_spec(crate::text::trimmed(raw)) {
        Some(v) => if 0 < v && v <= usize::MAX {
            Some(v as usize)
        } else {
            None
        },
        None => None,
    }
}

/// Reads a terminal size given as text; `None` when it is not a positive number.
pub fn dimension_override(raw: &str) -> (size: Option<usize>)
    ensures
        size == dimension_override_spec(raw@),
{
    let chars = crate::text::str_chars(raw);
    let trimmed = crate::text::trim_chars(&chars);
    match crate::text::parse_u64(&trimmed) {
        Some(v) => {
            if v > 0 && v <= usize::MAX as u64 {
                Some(v as usize)
            } else {
                None
            }
        },
        None => None,
    }
}

/// The size to draw for: an explicit override first, then what the terminal
/// reports, then `fallback`.
pub fn resolve_dimension(from_override: Option<usize>, measured: Option<usize>, fallback: usize) -> (size:
    usize)
    ensures
        size == match from_override {
            Some(v) => v,
            None => match measured {
                Some(m) => m,
                None => fallback,
            },
        },
{
    match from_override {
        Some(v) => v,
        None => match measured {
            Some(m) => m,
            None => fallback,
        },
    }
}


/// Text without line breaks.
pub open spec fn single_line(s: Seq<char>) -> bool {
    forall|i: int| 0 <= i < s.len() ==> #[trigger] s[i] != '\n' && s[i] != '\r'
}

proof fn lemma_single_line_append(a: Seq<char>, b: Seq<char>)
    requires
        single_line(a),
        single_line(b),
    ensures
        single_line(a + b),
{
    assert forall|i: int| 0 <= i < (a + b).len() implies #[trigger] (a + b)[i] != '\n' && (a
        + b)[i] != '\r' by {
        if i < a.len() {
            assert((a + b)[i] == a[i]);
        } else {
            assert((a + b)[i] == b[i - a.len()]);
        }
    }
}

proof fn lemma_command_single_line(params: Seq<char>, letter: char)
    requires
        parameter_chars(params),
        letter != '\n',
        letter != '\r',
    ensures
        single_line(command_seq(params, letter)),
{
    let s = command_seq(params, letter);
    assert forall|i: int| 0 <= i < s.len() implies #[trigger] s[i] != '\n' && s[i] != '\r' by {
        if 2 <= i < s.len() - 1 {
            assert(s[i] == params[i - 2]);
        }
    }
}

proof fn lemma_concat_single_line(pieces: Seq<Seq<char>>)
    requires
        forall|i: int| 0 <= i < pieces.len() ==> single_line(#[trigger] pieces[i]),
    ensures
        single_line(concat(pieces)),
    decreases pieces.len(),
{
    if pieces.len() > 0 {
        let init = pieces.drop_last();
        assert forall|i: int| 0 <= i < init.len() implies single_line(#[trigger] init[i]) by {
            assert(init[i] == pieces[i]);
        }
        lemma_concat_single_line(init);
        lemma_single_line_append(concat(init), pieces.last());
    }
}

/// A frame is drawn by moving the cursor to each row, never by line breaks:
/// the synchronized update breaks a line only where a row or the overlay does.
pub proof fn lemma_frame_output_single_line(frame: Seq<Seq<char>>, overlay: Seq<char>)
    requires
        forall|i: int| 0 <= i < frame.len() ==> single_line(#[trigger] frame[i]),
        single_line(overlay),
    ensures
        single_line(frame_output_seq(frame)),
        single_line(begin_sync_seq() + frame_output_seq(frame) + overlay + end_sync_seq()),
{
    lemma_command_single_line(seq!['0'], 'm');
    lemma_command_single_line(seq!['2'], 'J');
    lemma_command_single_line(seq!['2'], 'K');
    lemma_command_single_line(Seq::empty(), 'J');
    lemma_command_single_line(seq!['?', '2', '0', '2', '6'], 'h');
    lemma_command_single_line(seq!['?', '2', '0', '2', '6'], 'l');
    lemma_decimal_params(1);
    lemma_params_append(decimal(1), seq![';']);
    lemma_params_append(decimal(1) + seq![';'], decimal(1));
    lemma_command_single_line(decimal(1) + seq![';'] + decimal(1), 'H');
    if frame.len() == 0 {
        lemma_single_line_append(reset_color_seq(), move_to_seq(0, 0));
        lemma_single_line_append(reset_color_seq() + move_to_seq(0, 0), clear_seq(ClearKind::All));
    } else {
        let rows = Seq::new(frame.len(), |i: int| frame_row_seq(frame, i));
        assert forall|i: int| 0 <= i < rows.len() implies single_line(#[trigger] rows[i]) by {
            lemma_decimal_params(i as nat + 1);
            lemma_params_append(decimal(i as nat + 1), seq![';']);
            lemma_params_append(decimal(i as nat + 1) + seq![';'], decimal(1));
            lemma_command_single_line(decimal(i as nat + 1) + seq![';'] + decimal(1), 'H');
            let kind = if i == frame.len() - 1 {
                ClearKind::FromCursorDown
            } else {
                ClearKind::CurrentLine
            };
            lemma_single_line_append(move_to_seq(0, i as nat), clear_seq(kind));
            lemma_single_line_append(move_to_seq(0, i as nat) + clear_seq(kind), frame[i]);
            lemma_single_line_append(
                move_to_seq(0, i as nat) + clear_seq(kind) + frame[i],
                reset_color_seq(),
            );
        }
        lemma_concat_single_line(rows);
        lemma_single_line_append(reset_color_seq(), concat(rows));
    }
    lemma_single_line_append(begin_sync_seq(), frame_output_seq(frame));
    lemma_single_line_append(begin_sync_seq() + frame_output_seq(frame), overlay);
    lemma_single_line_append(begin_sync_seq() + frame_output_seq(frame) + overlay, end_sync_seq());
}

} // verus!
