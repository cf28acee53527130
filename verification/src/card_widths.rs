//! How wide the cards are on screen: the identity card stays clear of the
//! terminal's last four columns, and every row of the welcome card spans its
//! box exactly.

use vstd::prelude::*;

use crate::cards::{
    body_accents, body_line, box_edge, boxed_rows, card_available, card_rows,
    colored_body, colored_logo, earliest_accent, framed_line, identity_rows, join_words,
    lemma_accents_nonempty, lemma_earliest_accent_occurs, logo_code, logo_piece, sgr, title_line,
    welcome_body, welcome_frame, welcome_inner_width, welcome_rows, with_color, wrap_groups, wrapped_groups, wrapped_lines,
    BROWSE_HINT,
};
use crate::screen::RgbColor;
use crate::screen_runner::{credit_spec, AnimationStyle};
use crate::text::{
    centered, closed, esc, is_ascii_alpha, lemma_centered_width, lemma_concat_unit_width,
    lemma_control_width, lemma_glyph_width, lemma_plain_width, lemma_spaces_plain,
    lemma_width_append, occurs_at, pad_right, plain, spaces, visible_width, words, words_from,
};

verus! {

/// Text that may stand between `ESC [` and a sequence's final letter.
pub open spec fn parameters(code: Seq<char>) -> bool {
    forall|i: int| 0 <= i < code.len() ==> !is_ascii_alpha(#[trigger] code[i])
}

/// Setting text in an SGR mode adds no columns.
pub proof fn lemma_sgr_width(code: Seq<char>, text: Seq<char>)
    requires
        parameters(code),
        closed(text),
    ensures
        visible_width(sgr(code, text)) == visible_width(text),
        closed(sgr(code, text)),
{
    let open = seq![esc(), '['] + code + seq!['m'];
    let reset = seq![esc(), '[', '0', 'm'];
    assert forall|i: int| 2 <= i < open.len() - 1 implies !is_ascii_alpha(#[trigger] open[i]) by {
        assert(open[i] == code[i - 2]);
    }
    assert(open.last() == 'm');
    lemma_control_width(open);
    assert(reset.last() == 'm');
    lemma_control_width(reset);
    lemma_width_append(open, text);
    lemma_width_append(open + text, reset);
    assert(sgr(code, text) =~= open + text + reset);
}

proof fn lemma_plain_append(a: Seq<char>, b: Seq<char>)
    requires
        plain(a),
        plain(b),
    ensures
        plain(a + b),
{
    assert forall|i: int| 0 <= i < (a + b).len() implies (a + b)[i] != esc() by {
        if i >= a.len() {
            assert((a + b)[i] == b[i - a.len()]);
        }
    }
}

/// The words of text without escapes have none either.
proof fn lemma_words_from_plain(s: Seq<char>, current: Seq<char>, done: Seq<Seq<char>>)
    requires
        plain(s),
        plain(current),
        forall|k: int| 0 <= k < done.len() ==> plain(#[trigger] done[k]),
    ensures
        forall|k: int|
            0 <= k < words_from(s, current, done).len() ==> plain(
                #[trigger] words_from(s, current, done)[k],
            ),
    decreases s.len(),
{
    let pushed = done.push(current);
    assert forall|k: int| 0 <= k < pushed.len() implies plain(#[trigger] pushed[k]) by {
        if k < done.len() {
            assert(pushed[k] == done[k]);
        }
    }
    if s.len() > 0 {
        let rest = s.drop_first();
        assert(plain(rest)) by {
            assert forall|i: int| 0 <= i < rest.len() implies rest[i] != esc() by {
                assert(rest[i] == s[i + 1]);
            }
        }
        if crate::text::is_whitespace(s[0]) {
            if current.len() > 0 {
                lemma_words_from_plain(rest, Seq::empty(), pushed);
                assert(words_from(s, current, done) == words_from(rest, Seq::empty(), pushed));
            } else {
                lemma_words_from_plain(rest, Seq::empty(), done);
                assert(words_from(s, current, done) == words_from(rest, Seq::empty(), done));
            }
        } else {
            let grown = current.push(s[0]);
            assert(plain(grown)) by {
                assert forall|i: int| 0 <= i < grown.len() implies grown[i] != esc() by {
                    if i < current.len() {
                        assert(grown[i] == current[i]);
                    }
                }
            }
            lemma_words_from_plain(rest, grown, done);
            assert(words_from(s, current, done) == words_from(rest, grown, done));
        }
    } else {
        if current.len() > 0 {
            assert(words_from(s, current, done) == pushed);
        } else {
            assert(words_from(s, current, done) == done);
        }
    }
}

proof fn lemma_join_plain(group: Seq<Seq<char>>)
    requires
        forall|k: int| 0 <= k < group.len() ==> plain(#[trigger] group[k]),
    ensures
        plain(join_words(group)),
    decreases group.len(),
{
    if group.len() > 1 {
        let init = group.drop_last();
        assert forall|k: int| 0 <= k < init.len() implies plain(#[trigger] init[k]) by {
            assert(init[k] == group[k]);
        }
        lemma_join_plain(init);
        lemma_plain_append(join_words(init), seq![' ']);
        lemma_plain_append(join_words(init) + seq![' '], group.last());
    }
}

proof fn lemma_wrap_groups_plain(
    ws: Seq<Seq<char>>,
    available: nat,
    current: Seq<Seq<char>>,
    done: Seq<Seq<Seq<char>>>,
)
    requires
        forall|k: int| 0 <= k < ws.len() ==> plain(#[trigger] ws[k]),
        forall|k: int| 0 <= k < current.len() ==> plain(#[trigger] current[k]),
        forall|g: int, k: int|
            0 <= g < done.len() && 0 <= k < done[g].len() ==> plain(#[trigger] done[g][k]),
    ensures
        forall|g: int|
            0 <= g < wrap_groups(ws, available, current, done).len() ==> plain(
                join_words(#[trigger] wrap_groups(ws, available, current, done)[g]),
            ),
    decreases ws.len(),
{
    if ws.len() == 0 {
        let pushed = done.push(current);
        assert forall|g: int| 0 <= g < pushed.len() implies plain(join_words(#[trigger] pushed[g])) by {
            if g < done.len() {
                assert(pushed[g] == done[g]);
                assert forall|k: int| 0 <= k < done[g].len() implies plain(#[trigger] done[g][k]) by {}
                lemma_join_plain(done[g]);
            } else {
                lemma_join_plain(current);
            }
        }
        assert(wrap_groups(ws, available, current, done) == pushed);
    } else {
        let w = ws[0];
        let rest = ws.drop_first();
        assert forall|k: int| 0 <= k < rest.len() implies plain(#[trigger] rest[k]) by {
            assert(rest[k] == ws[k + 1]);
        }
        if current.len() > 0 && join_words(current).len() + 1 + w.len() > available {
            let pushed = done.push(current);
            assert forall|g: int, k: int|
                0 <= g < pushed.len() && 0 <= k < pushed[g].len() implies plain(
                #[trigger] pushed[g][k],
            ) by {
                if g < done.len() {
                    assert(pushed[g] == done[g]);
                }
            }
            let single = seq![w];
            assert forall|k: int| 0 <= k < single.len() implies plain(#[trigger] single[k]) by {}
            lemma_wrap_groups_plain(rest, available, single, pushed);
            assert(wrap_groups(ws, available, current, done) == wrap_groups(
                rest,
                available,
                single,
                pushed,
            ));
        } else {
            let grown = current.push(w);
            assert forall|k: int| 0 <= k < grown.len() implies plain(#[trigger] grown[k]) by {
                if k < current.len() {
                    assert(grown[k] == current[k]);
                }
            }
            lemma_wrap_groups_plain(rest, available, grown, done);
            assert(wrap_groups(ws, available, current, done) == wrap_groups(
                rest,
                available,
                grown,
                done,
            ));
        }
    }
}

/// The wrapped lines of text without escapes have none either.
proof fn lemma_wrapped_lines_plain(text: Seq<char>, available: nat)
    requires
        plain(text),
    ensures
        forall|k: int|
            0 <= k < wrapped_lines(text, available).len() ==> plain(
                #[trigger] wrapped_lines(text, available)[k],
            ),
{
    lemma_words_from_plain(text, Seq::empty(), Seq::empty());
    lemma_wrap_groups_plain(words(text), available, Seq::empty(), Seq::empty());
    assert forall|k: int| 0 <= k < wrapped_lines(text, available).len() implies plain(
        #[trigger] wrapped_lines(text, available)[k],
    ) by {
        assert(wrapped_lines(text, available)[k] == join_words(wrapped_groups(text, available)[k]));
    }
}

/// The titles, credits and browsing hint contain no escape characters.
pub proof fn lemma_credits_plain(style: AnimationStyle)
    ensures
        plain(credit_spec(style).0),
        plain(credit_spec(style).1),
        plain(BROWSE_HINT@),
{
    reveal_strlit("\u{2190}/h previous \u{b7} l/\u{2192} next");
    match style {
        AnimationStyle::Aquarium => {
            reveal_strlit("Aquarium");
            reveal_strlit("Original art and motion by Anima");
        },
        AnimationStyle::Boids(crate::screen_runner::BoidsVariant::Predator) => {
            reveal_strlit("Boids: Predator");
            reveal_strlit("Model by Craig Reynolds");
        },
        AnimationStyle::Boids(crate::screen_runner::BoidsVariant::Schools) => {
            reveal_strlit("Boids: Schools");
            reveal_strlit("Model by Craig Reynolds");
        },
        AnimationStyle::GameOfLife(crate::screen_runner::GameOfLifeVariant::Gliders) => {
            reveal_strlit("Game of Life: Gliders");
            reveal_strlit("Created by John Conway");
        },
        AnimationStyle::GameOfLife(crate::screen_runner::GameOfLifeVariant::Tumblers) => {
            reveal_strlit("Game of Life: Tumblers");
            reveal_strlit("Created by John Conway");
        },
        AnimationStyle::FriendsAndEnemies => {
            reveal_strlit("Friends and Enemies");
            reveal_strlit("Particle rule by Simon Woods");
        },
        AnimationStyle::Primordial => {
            reveal_strlit("Primordial");
            reveal_strlit("Model by Thomas Schmickl, Martin Stefanec and Karl Crailsheim");
        },
        AnimationStyle::Physarum => {
            reveal_strlit("Physarum");
            reveal_strlit("Based on the model by Jeff Jones");
        },
        AnimationStyle::Chladni => {
            reveal_strlit("Chladni");
            reveal_strlit("Equations documented by Paul Bourke");
        },
        AnimationStyle::Plasma => {
            reveal_strlit("Plasma");
            reveal_strlit("Technique documented by Lode Vandevenne");
        },
        AnimationStyle::Mandelbrot => {
            reveal_strlit("Mandelbrot");
            reveal_strlit("Fractal research by Beno\u{ee}t Mandelbrot");
        },
        AnimationStyle::Matrix => {
            reveal_strlit("Matrix");
            reveal_strlit("Original rain design by Simon Whiteley");
        },
    }
}

/// A border row: two corners around `inner` rules.
proof fn lemma_box_edge_width(left: char, inner: nat, right: char)
    requires
        left != esc(),
        right != esc(),
    ensures
        plain(box_edge(left, inner, right)),
        visible_width(box_edge(left, inner, right)) == inner + 2,
        closed(box_edge(left, inner, right)),
{
    let edge = box_edge(left, inner, right);
    assert forall|i: int| 0 <= i < edge.len() implies edge[i] != esc() by {
        if 0 < i < edge.len() - 1 {
            assert(edge[i] == '\u{2500}');
        }
    }
    lemma_plain_width(edge);
}

/// A framed line is as wide as the border rows.
proof fn lemma_framed_line_width(line: Seq<char>, inner: nat)
    requires
        plain(line),
        line.len() <= inner,
    ensures
        visible_width(framed_line(line, inner)) == inner + 4,
        closed(framed_line(line, inner)),
{
    let bar = seq!['\u{2502}'];
    let backing = seq![esc(), '[', '4', '8', ';', '2', ';', '0', ';', '0', ';', '0', 'm'];
    let restore = seq![esc(), '[', '4', '9', 'm'];
    let padded = pad_right(line, inner);
    let body = seq![' '] + padded + seq![' '];
    assert(padded =~= line + spaces((inner - line.len()) as nat));
    crate::text::lemma_spaces_plain((inner - line.len()) as nat);
    lemma_plain_append(line, spaces((inner - line.len()) as nat));
    lemma_plain_append(seq![' '], padded);
    lemma_plain_append(seq![' '] + padded, seq![' ']);
    lemma_plain_width(body);
    lemma_plain_width(bar);
    assert(backing.last() == 'm');
    assert forall|i: int| 2 <= i < backing.len() - 1 implies !is_ascii_alpha(#[trigger] backing[i]) by {}
    lemma_control_width(backing);
    assert(restore.last() == 'm');
    assert forall|i: int| 2 <= i < restore.len() - 1 implies !is_ascii_alpha(#[trigger] restore[i]) by {}
    lemma_control_width(restore);
    lemma_width_append(bar, backing);
    lemma_width_append(bar + backing, body);
    lemma_width_append(bar + backing + body, restore);
    lemma_width_append(bar + backing + body + restore, bar);
    assert(framed_line(line, inner) =~= bar + backing + body + restore + bar);
}

proof fn lemma_widest(lines: Seq<(Seq<char>, RgbColor)>, bound: nat)
    ensures
        forall|k: int| 0 <= k < lines.len() ==> (#[trigger] lines[k]).0.len() <= crate::cards::widest(lines),
        (forall|k: int| 0 <= k < lines.len() ==> (#[trigger] lines[k]).0.len() <= bound)
            ==> crate::cards::widest(lines) <= bound,
    decreases lines.len(),
{
    if lines.len() > 0 {
        let init = lines.drop_last();
        lemma_widest(init, bound);
        assert forall|k: int| 0 <= k < lines.len() implies (#[trigger] lines[k]).0.len()
            <= crate::cards::widest(lines) by {
            if k < init.len() {
                assert(lines[k] == init[k]);
            }
        }
        if forall|k: int| 0 <= k < lines.len() ==> (#[trigger] lines[k]).0.len() <= bound {
            assert forall|k: int| 0 <= k < init.len() implies (#[trigger] init[k]).0.len() <= bound by {
                assert(init[k] == lines[k]);
            }
            assert(lines[lines.len() - 1] == lines.last());
        }
    }
}

/// Every row of the identity card is equally wide, and the card keeps the
/// terminal's last four columns free: it starts at the third column and is at
/// most `width - 4` columns wide.
pub proof fn lemma_identity_card_width(style: AnimationStyle, width: nat, height: nat)
    ensures
        forall|r: int|
            0 <= r < identity_rows(style, width, height).len() ==> visible_width(
                #[trigger] identity_rows(style, width, height)[r].0,
            ) == visible_width(identity_rows(style, width, height)[0].0) && visible_width(
                identity_rows(style, width, height)[r].0,
            ) + 4 <= width && closed(identity_rows(style, width, height)[r].0),
{
    let rows = identity_rows(style, width, height);
    if rows.len() > 0 {
        let available = card_available(width);
        let (title, credit) = credit_spec(style);
        lemma_credits_plain(style);
        crate::cards::lemma_wrapped_lines_fit(title, available);
        crate::cards::lemma_wrapped_lines_fit(credit, available);
        crate::cards::lemma_wrapped_lines_fit(BROWSE_HINT@, available);
        lemma_wrapped_lines_plain(title, available);
        lemma_wrapped_lines_plain(credit, available);
        lemma_wrapped_lines_plain(BROWSE_HINT@, available);
        let t = with_color(wrapped_lines(title, available), crate::cards::title_color());
        let c = with_color(wrapped_lines(credit, available), crate::cards::credit_color());
        let h = with_color(wrapped_lines(BROWSE_HINT@, available), crate::cards::hint_color());
        let lines = t + c + h;
        assert forall|k: int| 0 <= k < lines.len() implies (#[trigger] lines[k]).0.len()
            <= available && plain(lines[k].0) by {
            if k < t.len() {
                assert(lines[k] == t[k]);
            } else if k < t.len() + c.len() {
                assert(lines[k] == c[k - t.len()]);
            } else {
                assert(lines[k] == h[k - t.len() - c.len()]);
            }
        }
        lemma_widest(lines, available);
        let inner = crate::cards::widest(lines);
        assert(rows == boxed_rows(lines));
        lemma_box_edge_width('\u{256d}', inner + 2, '\u{256e}');
        lemma_box_edge_width('\u{2570}', inner + 2, '\u{256f}');
        assert forall|r: int| 0 <= r < rows.len() implies visible_width(#[trigger] rows[r].0)
            == inner + 4 && closed(rows[r].0) by {
            if 0 < r < rows.len() - 1 {
                assert(rows[r].0 == framed_line(lines[r - 1].0, inner));
                lemma_framed_line_width(lines[r - 1].0, inner);
            }
        }
    }
}


proof fn lemma_codes()
    ensures
        parameters("2"@),
        parameters("31"@),
        parameters("32"@),
        parameters("33"@),
        parameters("34"@),
        parameters("35"@),
{
    reveal_strlit("2");
    reveal_strlit("31");
    reveal_strlit("32");
    reveal_strlit("33");
    reveal_strlit("34");
    reveal_strlit("35");
}

proof fn lemma_plain_slices(s: Seq<char>, a: int, b: int)
    requires
        plain(s),
        0 <= a <= b <= s.len(),
    ensures
        plain(s.subrange(a, b)),
{
    assert forall|i: int| 0 <= i < s.subrange(a, b).len() implies s.subrange(a, b)[i] != esc() by {
        assert(s.subrange(a, b)[i] == s[a + i]);
    }
}

/// Coloring the welcome body adds no columns.
pub proof fn lemma_colored_body_width(s: Seq<char>)
    requires
        plain(s),
    ensures
        visible_width(colored_body(s)) == s.len(),
        closed(colored_body(s)),
    decreases s.len(),
{
    lemma_codes();
    lemma_plain_width(s);
    match earliest_accent(s, 8) {
        None => {
            lemma_sgr_width("32"@, s);
        },
        Some(found) => {
            lemma_earliest_accent_occurs(s, 8);
            lemma_accents_nonempty();
            let p = found.0 as int;
            let accent = body_accents()[found.1 as int];
            let end = p + accent.len();
            assert(occurs_at(s, accent, p));
            assert(s.subrange(p, end) == accent);
            let head = s.take(p);
            let tail = s.skip(end);
            lemma_plain_slices(s, 0, p);
            assert(head =~= s.subrange(0, p));
            lemma_plain_slices(s, p, end);
            lemma_plain_slices(s, end, s.len() as int);
            assert(tail =~= s.subrange(end, s.len() as int));
            lemma_plain_width(head);
            lemma_plain_width(accent);
            lemma_sgr_width("32"@, head);
            lemma_sgr_width("34"@, accent);
            lemma_colored_body_width(tail);
            lemma_width_append(sgr("32"@, head), sgr("34"@, accent));
            lemma_width_append(sgr("32"@, head) + sgr("34"@, accent), colored_body(tail));
        },
    }
}

/// Coloring the logo adds no columns.
pub proof fn lemma_colored_logo_width(s: Seq<char>)
    requires
        plain(s),
    ensures
        visible_width(colored_logo(s)) == s.len(),
        closed(colored_logo(s)),
{
    lemma_codes();
    let pieces = Seq::new(s.len(), |i: int| logo_piece(i, s[i]));
    assert forall|i: int| 0 <= i < pieces.len() implies visible_width(#[trigger] pieces[i]) == 1
        && closed(pieces[i]) by {
        lemma_glyph_width(s[i]);
        if s[i] != ' ' {
            assert(parameters(logo_code(i)));
            lemma_sgr_width(logo_code(i), seq![s[i]]);
        }
    }
    lemma_concat_unit_width(pieces);
}

/// Centering text without escapes gives text without escapes, as long as the
/// wider of the two.
proof fn lemma_centered_plain(s: Seq<char>, width: nat)
    requires
        plain(s),
    ensures
        plain(centered(s, width)),
        centered(s, width).len() == if s.len() >= width {
            s.len()
        } else {
            width
        },
{
    lemma_plain_width(s);
    if s.len() < width {
        let left = ((width - s.len()) / 2) as nat;
        let right = (width - s.len() - left) as nat;
        lemma_spaces_plain(left);
        lemma_spaces_plain(right);
        lemma_plain_append(spaces(left), s);
        lemma_plain_append(spaces(left) + s, spaces(right));
    }
}

/// Every row of a welcome card is as wide as its box: the inner width and
/// the two border columns.
pub proof fn lemma_card_rows_width(
    inner: nat,
    center_body: bool,
    body: Seq<Seq<char>>,
    body_count: nat,
    full_title: bool,
)
    requires
        inner + 2 >= 18,
        forall|k: int| 0 <= k < body.len() ==> plain(#[trigger] body[k]) && body[k].len() <= inner
            + 2,
    ensures
        forall|r: int|
            0 <= r < card_rows(inner, center_body, body, body_count, full_title).len() ==> visible_width(
                #[trigger] card_rows(inner, center_body, body, body_count, full_title)[r],
            ) == inner + 2 && closed(card_rows(inner, center_body, body, body_count, full_title)[r]),
{
    lemma_codes();
    reveal_strlit("YAZELIX");
    reveal_strlit("YZS");
    reveal_strlit("welcome to yazelix");
    let cw = inner + 2;
    let rows = card_rows(inner, center_body, body, body_count, full_title);
    lemma_box_edge_width('\u{256d}', inner, '\u{256e}');
    lemma_box_edge_width('\u{2570}', inner, '\u{256f}');
    lemma_sgr_width("35"@, box_edge('\u{256d}', inner, '\u{256e}'));
    lemma_sgr_width("35"@, box_edge('\u{2570}', inner, '\u{256f}'));
    assert(plain("YAZELIX"@));
    assert(plain("YZS"@));
    assert(plain("welcome to yazelix"@));
    lemma_centered_plain("YAZELIX"@, cw);
    lemma_centered_plain("YZS"@, cw);
    lemma_centered_plain("welcome to yazelix"@, cw);
    lemma_plain_width(centered("YAZELIX"@, cw));
    lemma_plain_width(centered("YZS"@, cw));
    lemma_plain_width(centered("welcome to yazelix"@, cw));
    lemma_colored_logo_width(centered("YAZELIX"@, cw));
    lemma_sgr_width("2"@, centered("YZS"@, cw));
    lemma_sgr_width("33"@, centered("welcome to yazelix"@, cw));
    lemma_spaces_plain(cw);
    lemma_sgr_width("2"@, spaces(cw));
    assert forall|r: int| 0 <= r < rows.len() implies visible_width(#[trigger] rows[r]) == cw
        && closed(rows[r]) by {
        if 2 <= r < rows.len() - 2 {
            let k = r - 2;
            assert(rows[r] == body_line(body[k], k, body_count, center_body, cw));
            if k < body_count {
                let line = if center_body {
                    centered(body[k], cw)
                } else {
                    pad_right(body[k], cw)
                };
                if center_body {
                    lemma_centered_plain(body[k], cw);
                } else {
                    lemma_spaces_plain((cw - body[k].len()) as nat);
                    lemma_plain_append(body[k], spaces((cw - body[k].len()) as nat));
                    assert(pad_right(body[k], cw) =~= body[k] + spaces((cw - body[k].len()) as nat));
                }
                lemma_colored_body_width(line);
            }
        } else if r == 1 {
            assert(rows[r] == title_line(full_title, cw));
        }
    }
}

proof fn lemma_welcome_body_fits(width: nat)
    ensures
        forall|k: int|
            0 <= k < welcome_body(width).len() ==> plain(#[trigger] welcome_body(width)[k])
                && welcome_body(width)[k].len() <= welcome_inner_width(width) + 2,
{
    reveal_strlit("yazi zellij helix");
    reveal_strlit("one shell. one flow.");
    reveal_strlit("your reproducible terminal IDE");
    reveal_strlit("zero-conflict helix/zellij keys");
    reveal_strlit("top terminals, shells, and packs");
    reveal_strlit("your reproducible, declarative terminal IDE");
    reveal_strlit("zero-conflict keybindings between helix and zellij");
    reveal_strlit("supports all top terminals and shells");
    reveal_strlit("curated program packs (all configurable)");
    reveal_strlit("shines over SSH");
}

/// Every row of the welcome card, in the static and in each logo frame, spans
/// the box exactly, and once centered in the terminal the rows are all as wide
/// as the terminal (or as the box, on a terminal narrower than the box).
pub proof fn lemma_welcome_card_width(width: nat, body_count: nat, full_title: bool)
    ensures
        forall|r: int|
            0 <= r < welcome_rows(width, body_count, full_title).len() ==> visible_width(
                #[trigger] welcome_rows(width, body_count, full_title)[r],
            ) == welcome_inner_width(width) + 2,
        forall|r: int|
            0 <= r < welcome_frame(width, body_count, full_title).len() ==> visible_width(
                #[trigger] welcome_frame(width, body_count, full_title)[r],
            ) == if welcome_inner_width(width) + 2 >= width {
                welcome_inner_width(width) + 2
            } else {
                width
            },
{
    let inner = welcome_inner_width(width);
    lemma_welcome_body_fits(width);
    lemma_card_rows_width(inner, width >= 72, welcome_body(width), body_count, full_title);
    let rows = welcome_rows(width, body_count, full_title);
    let frame = welcome_frame(width, body_count, full_title);
    assert forall|r: int| 0 <= r < frame.len() implies visible_width(#[trigger] frame[r]) == if inner
        + 2 >= width {
        inner + 2
    } else {
        width
    } by {
        assert(frame[r] == centered(rows[r], width));
        lemma_centered_width(rows[r], width);
    }
}

} // verus!
