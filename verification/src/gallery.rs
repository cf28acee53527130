//! The animation gallery's inventory: the styles it records, and the check
//! that they are exactly the animations the command's help lists.

use vstd::prelude::*;

use crate::screen_runner::{strs_view, BOIDS_STYLE, RANDOM_STYLE, STATIC_STYLE};
use crate::text::{chars_equal, str_chars, string_from_chars, trim_chars, trimmed};

verus! {

/// `line` without one trailing carriage return.
pub open spec fn strip_cr(line: Seq<char>) -> Seq<char> {
    if line.len() > 0 && line.last() == '\r' {
        line.drop_last()
    } else {
        line
    }
}

/// The lines of `s`, the current line so far being `current`: a line ends at
/// `\n` (and loses a `\r` before it); a last line without `\n` counts when it
/// is not empty.
pub open spec fn lines_from(s: Seq<char>, current: Seq<char>) -> Seq<Seq<char>>
    decreases s.len(),
{
    if s.len() == 0 {
        if current.len() == 0 {
            Seq::empty()
        } else {
            seq![current]
        }
    } else if s[0] == '\n' {
        seq![strip_cr(current)] + lines_from(s.drop_first(), Seq::empty())
    } else {
        lines_from(s.drop_first(), current.push(s[0]))
    }
}

/// The lines of `s`, as `str::lines` gives them.
pub open spec fn text_lines(s: Seq<char>) -> Seq<Seq<char>> {
    lines_from(s, Seq::empty())
}

/// The lines after the first line that reads exactly `Styles:` (none when no
/// line does).
pub open spec fn after_styles_header(lines: Seq<Seq<char>>) -> Seq<Seq<char>>
    decreases lines.len(),
{
    if lines.len() == 0 {
        Seq::empty()
    } else if lines[0] == "Styles:"@ {
        lines.drop_first()
    } else {
        after_styles_header(lines.drop_first())
    }
}

/// The lines before the first empty one.
pub open spec fn until_blank(lines: Seq<Seq<char>>) -> Seq<Seq<char>>
    decreases lines.len(),
{
    if lines.len() == 0 || lines[0].len() == 0 {
        Seq::empty()
    } else {
        seq![lines[0]] + until_blank(lines.drop_first())
    }
}

/// Names the help lists that have no recording of their own: the static
/// card, the `boids` alias and `random`.
pub open spec fn unrecorded(name: Seq<char>) -> bool {
    name == STATIC_STYLE@ || name == BOIDS_STYLE@ || name == RANDOM_STYLE@
}

/// The trimmed lines, without the unrecorded names.
pub open spec fn recorded_names(lines: Seq<Seq<char>>) -> Seq<Seq<char>>
    decreases lines.len(),
{
    if lines.len() == 0 {
        Seq::empty()
    } else {
        let name = trimmed(lines[0]);
        (if unrecorded(name) {
            Seq::empty()
        } else {
            seq![name]
        }) + recorded_names(lines.drop_first())
    }
}

/// The styles a help text lists for recording: the block of lines under
/// `Styles:`, up to the first empty line, trimmed, without `static`, `boids`
/// and `random`.
pub open spec fn help_listed_styles(help: Seq<char>) -> Seq<Seq<char>> {
    recorded_names(until_blank(after_styles_header(text_lines(help))))
}

pub open spec fn line_views(lines: Seq<Vec<char>>) -> Seq<Seq<char>> {
    lines.map_values(|line: Vec<char>| line@)
}

/// The lines of `chars`, as `str::lines` gives them.
fn split_lines(chars: &Vec<char>) -> (lines: Vec<Vec<char>>)
    ensures
        line_views(lines@) == text_lines(chars@),
{
    let mut lines: Vec<Vec<char>> = Vec::new();
    let mut current: Vec<char> = Vec::new();
    let mut i: usize = 0;
    proof {
        assert(chars@.skip(0) =~= chars@);
        assert(line_views(lines@) =~= Seq::<Seq<char>>::empty());
    }
    while i < chars.len()
        invariant
            i <= chars@.len(),
            text_lines(chars@) == line_views(lines@) + lines_from(chars@.skip(i as int), current@),
        decreases chars.len() - i,
    {
        let c = chars[i];
        let ghost rest = chars@.skip(i as int);
        proof {
            assert(rest[0] == c);
            assert(rest.drop_first() =~= chars@.skip(i + 1));
        }
        if c == '\n' {
            let ghost line = strip_cr(current@);
            let n = current.len();
            if n > 0 && current[n - 1] == '\r' {
                current.pop();
            }
            assert(current@ =~= line);
            let ghost before = lines@;
            lines.push(current);
            current = Vec::new();
            proof {
                assert(line_views(lines@) =~= line_views(before) + seq![line]);
                assert(current@ =~= Seq::<char>::empty());
            }
        } else {
            current.push(c);
        }
        i = i + 1;
    }
    proof {
        assert(chars@.skip(i as int) =~= Seq::<char>::empty());
    }
    if current.len() > 0 {
        let ghost before = lines@;
        let ghost last = current@;
        lines.push(current);
        proof {
            assert(line_views(lines@) =~= line_views(before) + seq![last]);
        }
    } else {
        proof {
            assert(line_views(lines@) + Seq::<Seq<char>>::empty() =~= line_views(lines@));
        }
    }
    lines
}

/// The styles `help` lists for recording, as characters.
fn listed_style_chars(help: &str) -> (styles: Vec<Vec<char>>)
    ensures
        line_views(styles@) == help_listed_styles(help@),
{
    let chars = str_chars(help);
    let lines = split_lines(&chars);
    let ghost all = line_views(lines@);
    let mut i: usize = 0;
    proof {
        assert(all.skip(0) =~= all);
    }
    while i < lines.len() && !chars_equal(&lines[i], "Styles:")
        invariant
            i <= lines@.len(),
            all == line_views(lines@),
            after_styles_header(all) == after_styles_header(all.skip(i as int)),
        decreases lines.len() - i,
    {
        proof {
            assert(all.skip(i as int)[0] == lines@[i as int]@);
            assert(all.skip(i as int).drop_first() =~= all.skip(i + 1));
        }
        i = i + 1;
    }
    let mut j: usize = if i < lines.len() {
        i + 1
    } else {
        i
    };
    proof {
        if i < lines@.len() {
            assert(all.skip(i as int)[0] == lines@[i as int]@);
            assert(all.skip(i as int).drop_first() =~= all.skip(i + 1));
        } else {
            assert(all.skip(i as int) =~= Seq::<Seq<char>>::empty());
            assert(all.skip(j as int) =~= Seq::<Seq<char>>::empty());
        }
    }
    let mut styles: Vec<Vec<char>> = Vec::new();
    proof {
        assert(line_views(styles@) =~= Seq::<Seq<char>>::empty());
    }
    while j < lines.len() && lines[j].len() > 0
        invariant
            j <= lines@.len(),
            all == line_views(lines@),
            help_listed_styles(help@) == line_views(styles@) + recorded_names(
                until_blank(all.skip(j as int)),
            ),
        decreases lines.len() - j,
    {
        let ghost rest = all.skip(j as int);
        proof {
            assert(rest[0] == lines@[j as int]@);
            assert(rest.drop_first() =~= all.skip(j + 1));
            let taken = until_blank(rest);
            assert(taken =~= seq![rest[0]] + until_blank(all.skip(j + 1)));
            assert(taken[0] == rest[0]);
            assert(taken.drop_first() =~= until_blank(all.skip(j + 1)));
        }
        let name = trim_chars(&lines[j]);
        if !(chars_equal(&name, STATIC_STYLE) || chars_equal(&name, BOIDS_STYLE) || chars_equal(
            &name,
            RANDOM_STYLE,
        )) {
            let ghost before = styles@;
            let ghost shown = name@;
            styles.push(name);
            proof {
                assert(line_views(styles@) =~= line_views(before) + seq![shown]);
            }
        } else {
            proof {
                assert(seq![] + recorded_names(until_blank(all.skip(j + 1))) =~= recorded_names(
                    until_blank(all.skip(j + 1)),
                ));
            }
        }
        j = j + 1;
    }
    proof {
        if j < lines@.len() {
            assert(all.skip(j as int)[0] == lines@[j as int]@);
        }
        assert(until_blank(all.skip(j as int)) =~= Seq::<Seq<char>>::empty());
        assert(line_views(styles@) + Seq::<Seq<char>>::empty() =~= line_views(styles@));
    }
    styles
}

/// The styles `help` lists for recording: the lines under `Styles:` up to the
/// first empty line, trimmed, without `static`, `boids` and `random`.
pub fn listed_styles(help: &str) -> (styles: Vec<String>)
    ensures
        styles@.map_values(|s: String| s@) == help_listed_styles(help@),
{
    let names = listed_style_chars(help);
    let mut styles: Vec<String> = Vec::new();
    let mut i: usize = 0;
    while i < names.len()
        invariant
            i <= names@.len(),
            styles@.map_values(|s: String| s@) == line_views(names@).take(i as int),
        decreases names.len() - i,
    {
        let mut copy: Vec<char> = Vec::new();
        let mut k: usize = 0;
        while k < names[i].len()
            invariant
                i < names@.len(),
                k <= names@[i as int]@.len(),
                copy@ == names@[i as int]@.take(k as int),
            decreases names@[i as int]@.len() - k,
        {
            copy.push(names[i][k]);
            k = k + 1;
            proof {
                assert(copy@ =~= names@[i as int]@.take(k as int));
            }
        }
        proof {
            assert(copy@ =~= names@[i as int]@);
        }
        let ghost before = styles@;
        styles.push(string_from_chars(copy));
        i = i + 1;
        proof {
            assert(styles@.map_values(|s: String| s@) =~= before.map_values(|s: String| s@).push(
                names@[i - 1]@,
            ));
            assert(line_views(names@).take(i as int) =~= line_views(names@).take(i - 1).push(
                names@[i - 1]@,
            ));
        }
    }
    proof {
        assert(line_views(names@).take(i as int) =~= line_views(names@));
    }
    styles
}

/// Whether the gallery `recipe` records exactly the styles `help` lists, in
/// the same order; when it does not, the gallery and the command disagree.
pub fn recipe_matches_help(help: &str, recipe: &Vec<&'static str>) -> (matches: bool)
    ensures
        matches == (help_listed_styles(help@) == strs_view(recipe@)),
{
    let listed = listed_style_chars(help);
    let ghost want = strs_view(recipe@);
    let ghost have = line_views(listed@);
    if listed.len() != recipe.len() {
        proof {
            assert(have.len() != want.len());
        }
        return false;
    }
    let mut i: usize = 0;
    while i < listed.len()
        invariant
            i <= listed@.len(),
            listed@.len() == recipe@.len(),
            have == line_views(listed@),
            have == help_listed_styles(help@),
            want == strs_view(recipe@),
            forall|k: int| 0 <= k < i ==> have[k] == want[k],
        decreases listed.len() - i,
    {
        if !chars_equal(&listed[i], recipe[i]) {
            proof {
                assert(have[i as int] == listed@[i as int]@);
                assert(want[i as int] == recipe@[i as int]@);
                assert(have[i as int] != want[i as int]);
                assert(have != want);
            }
            return false;
        }
        i = i + 1;
    }
    proof {
        assert(have =~= want);
    }
    true
}

pub open spec fn no_newline(s: Seq<char>) -> bool {
    forall|k: int| 0 <= k < s.len() ==> s[k] != '\n'
}

proof fn lemma_lines_skip_text(x: Seq<char>, y: Seq<char>, current: Seq<char>)
    requires
        no_newline(x),
    ensures
        lines_from(x + y, current) == lines_from(y, current + x),
    decreases x.len(),
{
    if x.len() == 0 {
        assert(x + y =~= y);
        assert(current + x =~= current);
    } else {
        let rest = x.drop_first();
        assert((x + y)[0] == x[0]);
        assert((x + y).drop_first() =~= rest + y);
        lemma_lines_skip_text(rest, y, current.push(x[0]));
        assert(current.push(x[0]) + rest =~= current + x);
    }
}

proof fn lemma_lines_line(x: Seq<char>, y: Seq<char>, current: Seq<char>)
    requires
        no_newline(x),
    ensures
        lines_from(x + seq!['\n'] + y, current) == seq![strip_cr(current + x)] + lines_from(
            y,
            Seq::empty(),
        ),
{
    assert(x + seq!['\n'] + y =~= x + (seq!['\n'] + y));
    lemma_lines_skip_text(x, seq!['\n'] + y, current);
    assert((seq!['\n'] + y)[0] == '\n');
    assert((seq!['\n'] + y).drop_first() =~= y);
}

/// Each name with two spaces before it.
pub open spec fn indented(names: Seq<Seq<char>>) -> Seq<Seq<char>> {
    names.map_values(|name: Seq<char>| "  "@ + name)
}

proof fn lemma_lines_joined(names: Seq<Seq<char>>, y: Seq<char>, current: Seq<char>)
    requires
        names.len() > 0,
        forall|k: int| 0 <= k < names.len() ==> no_newline(#[trigger] names[k]),
        forall|k: int|
            0 <= k < names.len() ==> strip_cr("  "@ + #[trigger] names[k]) == "  "@ + names[k],
        strip_cr(current + names[0]) == current + names[0],
    ensures
        lines_from(crate::screen_runner::joined(names, "\n  "@) + seq!['\n'] + y, current) == seq![
            current + names[0],
        ] + indented(names.drop_first()) + lines_from(y, Seq::empty()),
    decreases names.len(),
{
    reveal_strlit("  ");
    reveal_strlit("\n  ");
    assert("\n  "@ =~= seq!['\n'] + "  "@);
    if names.len() == 1 {
        lemma_lines_line(names[0], y, current);
        assert(indented(names.drop_first()) =~= Seq::<Seq<char>>::empty());
    } else {
        let front = names.drop_last();
        let last = names.last();
        let tail = "  "@ + last + seq!['\n'] + y;
        assert(no_newline("  "@ + last)) by {
            assert(no_newline(last));
        }
        assert(crate::screen_runner::joined(names, "\n  "@) + seq!['\n'] + y =~= crate::screen_runner::joined(
            front,
            "\n  "@,
        ) + seq!['\n'] + tail);
        lemma_lines_joined(front, tail, current);
        lemma_lines_line("  "@ + last, y, Seq::empty());
        assert(Seq::<char>::empty() + ("  "@ + last) =~= "  "@ + last);
        assert(indented(names.drop_first()) =~= indented(front.drop_first()).push("  "@ + last));
        assert(front[0] == names[0]);
    }
}

proof fn lemma_header_skips(front: Seq<Seq<char>>, rest: Seq<Seq<char>>)
    requires
        forall|k: int| 0 <= k < front.len() ==> #[trigger] front[k] != "Styles:"@,
    ensures
        after_styles_header(front + rest) == after_styles_header(rest),
    decreases front.len(),
{
    if front.len() > 0 {
        assert((front + rest)[0] == front[0]);
        assert((front + rest).drop_first() =~= front.drop_first() + rest);
        lemma_header_skips(front.drop_first(), rest);
    } else {
        assert(front + rest =~= rest);
    }
}

proof fn lemma_until_blank_stops(front: Seq<Seq<char>>, rest: Seq<Seq<char>>)
    requires
        forall|k: int| 0 <= k < front.len() ==> (#[trigger] front[k]).len() > 0,
    ensures
        until_blank(front + seq![Seq::<char>::empty()] + rest) == front,
    decreases front.len(),
{
    let all = front + seq![Seq::<char>::empty()] + rest;
    if front.len() > 0 {
        assert(all[0] == front[0]);
        assert(all.drop_first() =~= front.drop_first() + seq![Seq::<char>::empty()] + rest);
        lemma_until_blank_stops(front.drop_first(), rest);
        assert(seq![front[0]] + front.drop_first() =~= front);
    } else {
        assert(all[0] == Seq::<char>::empty());
    }
}

/// The names that are recorded, in order (no trimming).
pub open spec fn recorded_only(names: Seq<Seq<char>>) -> Seq<Seq<char>>
    decreases names.len(),
{
    if names.len() == 0 {
        Seq::empty()
    } else {
        (if unrecorded(names[0]) {
            Seq::empty()
        } else {
            seq![names[0]]
        }) + recorded_only(names.drop_first())
    }
}

proof fn lemma_recorded_indented(names: Seq<Seq<char>>)
    requires
        forall|k: int| 0 <= k < names.len() ==> trimmed("  "@ + #[trigger] names[k]) == names[k],
    ensures
        recorded_names(indented(names)) == recorded_only(names),
    decreases names.len(),
{
    if names.len() > 0 {
        let lines = indented(names);
        assert(lines[0] == "  "@ + names[0]);
        assert(lines.drop_first() =~= indented(names.drop_first()));
        lemma_recorded_indented(names.drop_first());
    }
}

proof fn lemma_indented_name(name: Seq<char>)
    requires
        name.len() > 0,
        !crate::text::is_whitespace(name[0]),
        !crate::text::is_whitespace(name.last()),
    ensures
        trimmed("  "@ + name) == name,
        strip_cr("  "@ + name) == "  "@ + name,
{
    reveal_strlit("  ");
    let line = "  "@ + name;
    assert(line[0] == ' ' && line[1] == ' ');
    assert(line.drop_first().drop_first() =~= name);
    assert(line.drop_first()[0] == ' ');
    assert(crate::text::is_whitespace(' '));
    let l1 = line.drop_first();
    assert(crate::text::trim_start(line) == crate::text::trim_start(l1));
    assert(crate::text::trim_start(l1) == crate::text::trim_start(l1.drop_first()));
    assert(crate::text::trim_start(line) == crate::text::trim_start(name));
    assert(crate::text::trim_start(name) == name);
    assert(crate::text::trim_end(name) == name);
    assert(line.last() == name.last());
}

/// The names listed under `Styles:`, `random` last.
pub open spec fn help_style_lines() -> Seq<Seq<char>> {
    crate::screen_runner::screen_style_names().push(RANDOM_STYLE@)
}

proof fn lemma_help_style_line(i: int)
    requires
        0 <= i < 16,
    ensures
        no_newline(help_style_lines()[i]),
        trimmed("  "@ + help_style_lines()[i]) == help_style_lines()[i],
        strip_cr("  "@ + help_style_lines()[i]) == "  "@ + help_style_lines()[i],
{
    reveal_strlit("static");
    reveal_strlit("logo");
    reveal_strlit("random");
    reveal_strlit("aquarium");
    reveal_strlit("boids");
    reveal_strlit("boids_predator");
    reveal_strlit("boids_schools");
    reveal_strlit("friends_and_enemies");
    reveal_strlit("primordial");
    reveal_strlit("physarum");
    reveal_strlit("chladni");
    reveal_strlit("plasma");
    reveal_strlit("mandelbrot");
    reveal_strlit("matrix");
    reveal_strlit("game_of_life_gliders");
    reveal_strlit("game_of_life_tumblers");
    let name = help_style_lines()[i];
    assert(name.len() > 0);
    assert(!crate::text::is_whitespace(name[0]));
    assert(!crate::text::is_whitespace(name.last()));
    assert forall|k: int| 0 <= k < name.len() implies name[k] != '\n' by {}
    lemma_indented_name(name);
}

proof fn lemma_gallery_is_recorded_only()
    ensures
        recorded_only(help_style_lines()) == gallery_style_names(),
{
    reveal_strlit("static");
    reveal_strlit("logo");
    reveal_strlit("random");
    reveal_strlit("aquarium");
    reveal_strlit("boids");
    reveal_strlit("boids_predator");
    reveal_strlit("boids_schools");
    reveal_strlit("friends_and_enemies");
    reveal_strlit("primordial");
    reveal_strlit("physarum");
    reveal_strlit("chladni");
    reveal_strlit("plasma");
    reveal_strlit("mandelbrot");
    reveal_strlit("matrix");
    reveal_strlit("game_of_life_gliders");
    reveal_strlit("game_of_life_tumblers");
    let names = help_style_lines();
    assert(STATIC_STYLE@.len() == 6 && BOIDS_STYLE@.len() == 5 && RANDOM_STYLE@.len() == 6);
    assert(STATIC_STYLE@[0] == 's' && RANDOM_STYLE@[0] == 'r');
    assert forall|k: int| 0 <= k < 16 implies (#[trigger] names[k] == STATIC_STYLE@ || names[k]
        == BOIDS_STYLE@ || names[k] == RANDOM_STYLE@) == (k == 0 || k == 3 || k == 15) by {
        if k == 0 {
            assert(names[0] == "static"@);
            assert(names[0].len() == 6);
            assert(names[0] != RANDOM_STYLE@ && names[0] != BOIDS_STYLE@) by {
                assert(names[0][0] != RANDOM_STYLE@[0]);
            }
            assert(unrecorded(names[0]) == (0 == 0 || 0 == 3 || 0 == 15));
        } else if k == 1 {
            assert(names[1] == "logo"@);
            assert(names[1].len() == 4);
            assert(names[1] != STATIC_STYLE@ && names[1] != BOIDS_STYLE@ && names[1] != RANDOM_STYLE@);
            assert(unrecorded(names[1]) == (1 == 0 || 1 == 3 || 1 == 15));
        } else if k == 2 {
            assert(names[2] == "aquarium"@);
            assert(names[2].len() == 8);
            assert(names[2] != STATIC_STYLE@ && names[2] != BOIDS_STYLE@ && names[2] != RANDOM_STYLE@);
            assert(unrecorded(names[2]) == (2 == 0 || 2 == 3 || 2 == 15));
        } else if k == 3 {
            assert(names[3] == "boids"@);
            assert(names[3].len() == 5);
            assert(unrecorded(names[3]) == (3 == 0 || 3 == 3 || 3 == 15));
        } else if k == 4 {
            assert(names[4] == "boids_predator"@);
            assert(names[4].len() == 14);
            assert(names[4] != STATIC_STYLE@ && names[4] != BOIDS_STYLE@ && names[4] != RANDOM_STYLE@);
            assert(unrecorded(names[4]) == (4 == 0 || 4 == 3 || 4 == 15));
        } else if k == 5 {
            assert(names[5] == "boids_schools"@);
            assert(names[5].len() == 13);
            assert(names[5] != STATIC_STYLE@ && names[5] != BOIDS_STYLE@ && names[5] != RANDOM_STYLE@);
            assert(unrecorded(names[5]) == (5 == 0 || 5 == 3 || 5 == 15));
        } else if k == 6 {
            assert(names[6] == "friends_and_enemies"@);
            assert(names[6].len() == 19);
            assert(names[6] != STATIC_STYLE@ && names[6] != BOIDS_STYLE@ && names[6] != RANDOM_STYLE@);
            assert(unrecorded(names[6]) == (6 == 0 || 6 == 3 || 6 == 15));
        } else if k == 7 {
            assert(names[7] == "primordial"@);
            assert(names[7].len() == 10);
            assert(names[7] != STATIC_STYLE@ && names[7] != BOIDS_STYLE@ && names[7] != RANDOM_STYLE@);
            assert(unrecorded(names[7]) == (7 == 0 || 7 == 3 || 7 == 15));
        } else if k == 8 {
            assert(names[8] == "physarum"@);
            assert(names[8].len() == 8);
            assert(names[8] != STATIC_STYLE@ && names[8] != BOIDS_STYLE@ && names[8] != RANDOM_STYLE@);
            assert(unrecorded(names[8]) == (8 == 0 || 8 == 3 || 8 == 15));
        } else if k == 9 {
            assert(names[9] == "chladni"@);
            assert(names[9].len() == 7);
            assert(names[9] != STATIC_STYLE@ && names[9] != BOIDS_STYLE@ && names[9] != RANDOM_STYLE@);
            assert(unrecorded(names[9]) == (9 == 0 || 9 == 3 || 9 == 15));
        } else if k == 10 {
            assert(names[10] == "plasma"@);
            assert(names[10].len() == 6);
            assert(names[10][0] != 's' && names[10][0] != 'r');
            assert(names[10][0] != STATIC_STYLE@[0] && names[10][0] != RANDOM_STYLE@[0]);
            assert(names[10] != STATIC_STYLE@ && names[10] != RANDOM_STYLE@);
            assert(unrecorded(names[10]) == (10 == 0 || 10 == 3 || 10 == 15));
        } else if k == 11 {
            assert(names[11] == "mandelbrot"@);
            assert(names[11].len() == 10);
            assert(names[11] != STATIC_STYLE@ && names[11] != BOIDS_STYLE@ && names[11] != RANDOM_STYLE@);
            assert(unrecorded(names[11]) == (11 == 0 || 11 == 3 || 11 == 15));
        } else if k == 12 {
            assert(names[12] == "matrix"@);
            assert(names[12].len() == 6);
            assert(names[12][0] != 's' && names[12][0] != 'r');
            assert(names[12][0] != STATIC_STYLE@[0] && names[12][0] != RANDOM_STYLE@[0]);
            assert(names[12] != STATIC_STYLE@ && names[12] != RANDOM_STYLE@);
            assert(unrecorded(names[12]) == (12 == 0 || 12 == 3 || 12 == 15));
        } else if k == 13 {
            assert(names[13] == "game_of_life_gliders"@);
            assert(names[13].len() == 20);
            assert(names[13] != STATIC_STYLE@ && names[13] != BOIDS_STYLE@ && names[13] != RANDOM_STYLE@);
            assert(unrecorded(names[13]) == (13 == 0 || 13 == 3 || 13 == 15));
        } else if k == 14 {
            assert(names[14] == "game_of_life_tumblers"@);
            assert(names[14].len() == 21);
            assert(names[14] != STATIC_STYLE@ && names[14] != BOIDS_STYLE@ && names[14] != RANDOM_STYLE@);
            assert(unrecorded(names[14]) == (14 == 0 || 14 == 3 || 14 == 15));
        } else if k == 15 {
            assert(names[15] == "random"@);
            assert(names[15].len() == 6);
            assert(names[15] != STATIC_STYLE@) by {
                assert(names[15][0] != STATIC_STYLE@[0]);
            }
            assert(unrecorded(names[15]) == (15 == 0 || 15 == 3 || 15 == 15));
        }
    }
    lemma_recorded_only_steps(names, 0);
    assert(names.skip(0) =~= names);
}

proof fn lemma_recorded_only_steps(names: Seq<Seq<char>>, i: int)
    requires
        names == help_style_lines(),
        0 <= i <= 16,
        names.len() == 16,
        forall|k: int| 0 <= k < 16 ==> (unrecorded(#[trigger] names[k]) == (k == 0 || k == 3 || k == 15)),
    ensures
        recorded_only(names.skip(i)) == gallery_style_names().skip(
            if i == 0 {
                0
            } else if i <= 3 {
                i - 1
            } else if i <= 15 {
                i - 2
            } else {
                i - 3
            },
        ),
    decreases 16 - i,
{
    let g = gallery_style_names();
    let j = if i == 0 {
        0
    } else if i <= 3 {
        i - 1
    } else if i <= 15 {
        i - 2
    } else {
        i - 3
    };
    if i == 16 {
        assert(names.skip(16) =~= Seq::<Seq<char>>::empty());
        assert(g.skip(13) =~= Seq::<Seq<char>>::empty());
        assert(g.len() == 13);
    } else {
        lemma_recorded_only_steps(names, i + 1);
        let rest = names.skip(i);
        assert(rest[0] == names[i]);
        assert(rest.drop_first() =~= names.skip(i + 1));
        if !(i == 0 || i == 3 || i == 15) {
            assert(names[i] == g[j]);
            assert(g.skip(j) =~= seq![g[j]] + g.skip(j + 1));
        } else {
            assert(Seq::<Seq<char>>::empty() + recorded_only(names.skip(i + 1)) =~= recorded_only(
                names.skip(i + 1),
            ));
        }
    }
}

/// The command's own help lists exactly the gallery's styles, in the
/// gallery's order, whatever the command is called (a name without line
/// breaks).
pub proof fn lemma_help_lists_the_gallery(command_name: Seq<char>)
    requires
        no_newline(command_name),
    ensures
        help_listed_styles(crate::screen_runner::help_text_spec(command_name))
            == gallery_style_names(),
{
    let nl = seq!['\n'];
    let empty = Seq::<char>::empty();
    let names = crate::screen_runner::screen_style_names();
    let joined = crate::screen_runner::joined(names, "\n  "@);
    reveal_strlit("Show Yazelix terminal screen animations\n\nUsage:\n  ");
    reveal_strlit(" [STYLE] [--cell-style full_block|dotted] [--duration-seconds N]\n\nStyles:\n  ");
    reveal_strlit("\n  random\n\nNotes:\n  asciiquarium is a compatibility alias for native aquarium (not the classic renderer)\n  Animations, including Aquarium: Left/h/p = previous; Right/l/n = next; any other key = exit\n  Static and logo: any key = exit\n");
    reveal_strlit("Show Yazelix terminal screen animations");
    reveal_strlit(" [STYLE] [--cell-style full_block|dotted] [--duration-seconds N]");
    reveal_strlit("Usage:");
    reveal_strlit("Styles:");
    reveal_strlit("  ");
    reveal_strlit("  random");
    reveal_strlit("random");
    let title = "Show Yazelix terminal screen animations"@;
    let usage = "Usage:"@;
    let header = "Styles:"@;
    let indent = "  "@;
    let flags = " [STYLE] [--cell-style full_block|dotted] [--duration-seconds N]"@;
    let first = "Show Yazelix terminal screen animations\n\nUsage:\n  "@;
    let second = " [STYLE] [--cell-style full_block|dotted] [--duration-seconds N]\n\nStyles:\n  "@;
    let third = "\n  random\n\nNotes:\n  asciiquarium is a compatibility alias for native aquarium (not the classic renderer)\n  Animations, including Aquarium: Left/h/p = previous; Right/l/n = next; any other key = exit\n  Static and logo: any key = exit\n"@;
    let notes = third.skip(11);
    assert(first =~= title + nl + nl + usage + nl + indent);
    assert(second =~= flags + nl + nl + header + nl + indent);
    assert(third =~= nl + "  random"@ + nl + nl + notes);
    assert("  random"@ =~= indent + RANDOM_STYLE@);
    assert(no_newline(title));
    assert(no_newline(usage));
    assert(no_newline(header));
    assert(no_newline(indent));
    assert(no_newline(flags));
    assert(no_newline("  random"@));
    let usage_line = indent + command_name + flags;
    assert(no_newline(command_name + flags));
    assert(usage_line.last() == ']');
    assert(usage_line[0] == ' ');
    let rest_r = "  random"@ + nl + nl + notes;
    let after_header = indent + joined + nl + rest_r;
    let after_usage = nl + header + nl + after_header;
    let after_indent = command_name + flags + nl + after_usage;
    let text = crate::screen_runner::help_text_spec(command_name);
    assert(text =~= title + nl + (nl + (usage + nl + (indent + after_indent))));
    // Line by line.
    lemma_lines_line(title, nl + (usage + nl + (indent + after_indent)), empty);
    assert(empty + title =~= title);
    lemma_lines_line(empty, usage + nl + (indent + after_indent), empty);
    assert(nl + (usage + nl + (indent + after_indent)) =~= empty + nl + (usage + nl + (indent
        + after_indent)));
    lemma_lines_line(usage, indent + after_indent, empty);
    assert(empty + usage =~= usage);
    lemma_lines_skip_text(indent, after_indent, empty);
    assert(empty + indent =~= indent);
    assert(after_indent =~= (command_name + flags) + nl + after_usage);
    lemma_lines_line(command_name + flags, after_usage, indent);
    assert(indent + (command_name + flags) =~= usage_line);
    assert(after_usage =~= empty + nl + (header + nl + after_header));
    lemma_lines_line(empty, header + nl + after_header, empty);
    lemma_lines_line(header, after_header, empty);
    assert(empty + header =~= header);
    lemma_lines_skip_text(indent, joined + nl + rest_r, empty);
    assert(after_header =~= indent + (joined + nl + rest_r));
    assert forall|k: int| 0 <= k < names.len() implies no_newline(#[trigger] names[k]) && strip_cr(
        "  "@ + names[k],
    ) == "  "@ + names[k] by {
        lemma_help_style_line(k);
        assert(help_style_lines()[k] == names[k]);
    }
    lemma_help_style_line(0);
    assert(help_style_lines()[0] == names[0]);
    lemma_lines_joined(names, rest_r, indent);
    assert(rest_r =~= "  random"@ + nl + (empty + nl + notes));
    lemma_lines_line("  random"@, empty + nl + notes, empty);
    assert(empty + "  random"@ =~= "  random"@);
    lemma_lines_line(empty, notes, empty);
    lemma_help_style_line(15);
    assert(help_style_lines()[15] == RANDOM_STYLE@);
    let styled = indented(help_style_lines());
    assert(styled =~= seq![indent + names[0]] + indented(names.drop_first()) + seq!["  random"@]);
    let tail = lines_from(notes, empty);
    let lines = text_lines(text);
    let front = seq![title, empty, usage, usage_line, empty];
    assert(lines =~= front + (seq![header] + (styled + seq![empty] + tail)));
    assert forall|k: int| 0 <= k < front.len() implies #[trigger] front[k] != "Styles:"@ by {
        assert(front[k].len() != header.len() || front[k][0] != header[0]);
    }
    lemma_header_skips(front, seq![header] + (styled + seq![empty] + tail));
    assert((seq![header] + (styled + seq![empty] + tail))[0] == header);
    assert((seq![header] + (styled + seq![empty] + tail)).drop_first() =~= styled + seq![empty]
        + tail);
    assert forall|k: int| 0 <= k < styled.len() implies (#[trigger] styled[k]).len() > 0 by {
        assert(styled[k] == indent + help_style_lines()[k]);
    }
    lemma_until_blank_stops(styled, tail);
    assert forall|k: int| 0 <= k < help_style_lines().len() implies trimmed(
        "  "@ + #[trigger] help_style_lines()[k],
    ) == help_style_lines()[k] by {
        lemma_help_style_line(k);
    }
    lemma_recorded_indented(help_style_lines());
    lemma_gallery_is_recorded_only();
}

/// The styles the gallery records, in recording order.
pub open spec fn gallery_style_names() -> Seq<Seq<char>> {
    seq![
        crate::screen_runner::LOGO_STYLE@,
        crate::aquarium::AQUARIUM_STYLE@,
        crate::random::BOIDS_PREDATOR_STYLE@,
        crate::random::BOIDS_SCHOOLS_STYLE@,
        crate::friends_and_enemies::FRIENDS_AND_ENEMIES_STYLE@,
        crate::primordial::PRIMORDIAL_STYLE@,
        crate::physarum::PHYSARUM_STYLE@,
        crate::chladni::CHLADNI_STYLE@,
        crate::plasma::PLASMA_STYLE@,
        crate::random::MANDELBROT_STYLE@,
        crate::matrix::MATRIX_STYLE@,
        crate::random::GAME_OF_LIFE_GLIDERS_STYLE@,
        crate::screen_runner::GAME_OF_LIFE_TUMBLERS_STYLE@,
    ]
}

/// The styles the gallery records, in recording order.
pub fn gallery_styles() -> (styles: Vec<&'static str>)
    ensures
        strs_view(styles@) == gallery_style_names(),
{
    let styles = vec![
        crate::screen_runner::LOGO_STYLE,
        crate::aquarium::AQUARIUM_STYLE,
        crate::random::BOIDS_PREDATOR_STYLE,
        crate::random::BOIDS_SCHOOLS_STYLE,
        crate::friends_and_enemies::FRIENDS_AND_ENEMIES_STYLE,
        crate::primordial::PRIMORDIAL_STYLE,
        crate::physarum::PHYSARUM_STYLE,
        crate::chladni::CHLADNI_STYLE,
        crate::plasma::PLASMA_STYLE,
        crate::random::MANDELBROT_STYLE,
        crate::matrix::MATRIX_STYLE,
        crate::random::GAME_OF_LIFE_GLIDERS_STYLE,
        crate::screen_runner::GAME_OF_LIFE_TUMBLERS_STYLE,
    ];
    assert(strs_view(styles@) =~= gallery_style_names());
    styles
}

} // verus!
