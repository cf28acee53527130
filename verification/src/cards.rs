//! The cards drawn over the screen: the Yazelix welcome card, in its static and
//! logo forms, and the identity card that names the running animation.

use vstd::prelude::*;

use crate::screen::RgbColor;
use crate::screen_runner::{animation_credit, credit_spec, AnimationStyle};
use crate::terminal_control::string_views;
use crate::text::{
    center_chars, center_frame_lines, centered, concat, first_match, find_chars, lemma_concat_push,
    lemma_match_from_occurs, occurs_at, pad_right, pad_right_chars, push_chars, push_repeated,
    push_decimal, push_spaces, push_str, spaces, split_words, str_chars, string_from_chars, words,
    decimal,
};

verus! {

/// `text` set in the SGR mode `ESC [ code m`, followed by a reset.
pub open spec fn sgr(code: Seq<char>, text: Seq<char>) -> Seq<char> {
    seq!['\x1b', '['] + code + seq!['m'] + text + seq!['\x1b', '[', '0', 'm']
}

/// Appends `text` set in the SGR mode `code`.
pub fn push_sgr(out: &mut Vec<char>, code: &str, text: &Vec<char>)
    ensures
        final(out)@ == old(out)@ + sgr(code@, text@),
{
    let ghost start = out@;
    out.push('\x1b');
    out.push('[');
    push_str(out, code);
    out.push('m');
    push_chars(out, text);
    out.push('\x1b');
    out.push('[');
    out.push('0');
    out.push('m');
    proof {
        assert(out@ =~= start + sgr(code@, text@));
    }
}

/// `text` set in the SGR mode `code`, then reset.
pub fn ansi(code: &str, text: &str) -> (styled: String)
    ensures
        styled@ == sgr(code@, text@),
{
    let mut out: Vec<char> = Vec::new();
    push_sgr(&mut out, code, &str_chars(text));
    proof {
        assert(out@ =~= sgr(code@, text@));
    }
    string_from_chars(out)
}

pub fn green(text: &str) -> (styled: String)
    ensures
        styled@ == sgr("32"@, text@),
{
    ansi("32", text)
}

pub fn blue(text: &str) -> (styled: String)
    ensures
        styled@ == sgr("34"@, text@),
{
    ansi("34", text)
}

pub fn yellow(text: &str) -> (styled: String)
    ensures
        styled@ == sgr("33"@, text@),
{
    ansi("33", text)
}

pub fn magenta(text: &str) -> (styled: String)
    ensures
        styled@ == sgr("35"@, text@),
{
    ansi("35", text)
}

pub fn dim(text: &str) -> (styled: String)
    ensures
        styled@ == sgr("2"@, text@),
{
    ansi("2", text)
}

/// The foreground code of the logo's `k`-th colour, cycling red, green,
/// yellow, blue, magenta.
pub open spec fn logo_code(k: int) -> Seq<char> {
    if k % 5 == 0 {
        "31"@
    } else if k % 5 == 1 {
        "32"@
    } else if k % 5 == 2 {
        "33"@
    } else if k % 5 == 3 {
        "34"@
    } else {
        "35"@
    }
}

/// The `i`-th character of the logo: spaces stay bare, everything else takes
/// the colour of its position.
pub open spec fn logo_piece(i: int, c: char) -> Seq<char> {
    if c == ' ' {
        seq![' ']
    } else {
        sgr(logo_code(i), seq![c])
    }
}

pub open spec fn colored_logo(s: Seq<char>) -> Seq<char> {
    concat(Seq::new(s.len(), |i: int| logo_piece(i, s[i])))
}

/// Colours every character of `text` by its position.
pub fn colorize_logo(text: &str) -> (styled: String)
    ensures
        styled@ == colored_logo(text@),
{
    let chars = str_chars(text);
    let ghost pieces = Seq::new(chars@.len(), |i: int| logo_piece(i, chars@[i]));
    let mut out: Vec<char> = Vec::new();
    let mut i: usize = 0;
    proof {
        assert(pieces.take(0) =~= Seq::<Seq<char>>::empty());
    }
    while i < chars.len()
        invariant
            i <= chars@.len(),
            pieces == Seq::new(chars@.len(), |i: int| logo_piece(i, chars@[i])),
            out@ == concat(pieces.take(i as int)),
        decreases chars.len() - i,
    {
        let c = chars[i];
        let ghost before = out@;
        if c == ' ' {
            out.push(' ');
        } else {
            let code = if i % 5 == 0 {
                "31"
            } else if i % 5 == 1 {
                "32"
            } else if i % 5 == 2 {
                "33"
            } else if i % 5 == 3 {
                "34"
            } else {
                "35"
            };
            let mut glyph: Vec<char> = Vec::new();
            glyph.push(c);
            push_sgr(&mut out, code, &glyph);
            proof {
                assert(glyph@ =~= seq![c]);
            }
        }
        proof {
            assert(out@ =~= before + pieces[i as int]);
            assert(pieces.take(i + 1) =~= pieces.take(i as int).push(pieces[i as int]));
            lemma_concat_push(pieces.take(i as int), pieces[i as int]);
        }
        i = i + 1;
    }
    proof {
        assert(pieces.take(i as int) =~= pieces);
    }
    string_from_chars(out)
}


/// The words of the welcome body that are set in blue.
pub open spec fn body_accents() -> Seq<Seq<char>> {
    seq![
        "reproducible"@,
        "declarative"@,
        "helix"@,
        "zellij"@,
        "terminals"@,
        "shells"@,
        "packs"@,
        "SSH"@,
    ]
}

/// Among the first `n` accents, the one that occurs earliest in `s`, as its
/// position and its index; of two at the same position the one listed first.
pub open spec fn earliest_accent(s: Seq<char>, n: nat) -> Option<(nat, nat)>
    decreases n,
{
    if n == 0 {
        None
    } else {
        let prior = earliest_accent(s, (n - 1) as nat);
        match first_match(s, body_accents()[n - 1]) {
            None => prior,
            Some(p) => match prior {
                None => Some((p, (n - 1) as nat)),
                Some(best) => if p < best.0 {
                    Some((p, (n - 1) as nat))
                } else {
                    prior
                },
            },
        }
    }
}

/// There are eight accents, none of them empty.
pub proof fn lemma_accents_nonempty()
    ensures
        body_accents().len() == 8,
        forall|k: int| 0 <= k < 8 ==> (#[trigger] body_accents()[k]).len() > 0,
{
    reveal_strlit("reproducible");
    reveal_strlit("declarative");
    reveal_strlit("helix");
    reveal_strlit("zellij");
    reveal_strlit("terminals");
    reveal_strlit("shells");
    reveal_strlit("packs");
    reveal_strlit("SSH");
}

/// What `earliest_accent` names does occur there.
pub proof fn lemma_earliest_accent_occurs(s: Seq<char>, n: nat)
    requires
        n <= 8,
    ensures
        earliest_accent(s, n) matches Some(found) ==> found.1 < n && occurs_at(
            s,
            body_accents()[found.1 as int],
            found.0 as int,
        ),
    decreases n,
{
    if n > 0 {
        lemma_earliest_accent_occurs(s, (n - 1) as nat);
        lemma_match_from_occurs(s, body_accents()[n - 1], 0);
    }
}

/// The welcome body: plain text in green, each accent in blue, the earliest
/// accent first.
pub open spec fn colored_body(s: Seq<char>) -> Seq<char>
    decreases s.len(),
{
    match earliest_accent(s, 8) {
        None => sgr("32"@, s),
        Some(found) => {
            let accent = body_accents()[found.1 as int];
            proof {
                lemma_earliest_accent_occurs(s, 8);
                lemma_accents_nonempty();
            }
            sgr("32"@, s.take(found.0 as int)) + sgr("34"@, accent) + colored_body(
                s.skip(found.0 + accent.len() as int),
            )
        },
    }
}

/// The characters of `chars` from `start` up to `end`.
pub fn chars_between(chars: &Vec<char>, start: usize, end: usize) -> (part: Vec<char>)
    requires
        start <= end <= chars@.len(),
    ensures
        part@ == chars@.subrange(start as int, end as int),
{
    let mut part: Vec<char> = Vec::new();
    let mut i = start;
    while i < end
        invariant
            start <= i <= end <= chars@.len(),
            part@ == chars@.subrange(start as int, i as int),
        decreases end - i,
    {
        part.push(chars[i]);
        i = i + 1;
        proof {
            assert(part@ =~= chars@.subrange(start as int, i as int));
        }
    }
    part
}

fn accent_list() -> (accents: Vec<Vec<char>>)
    ensures
        accents@.len() == 8,
        forall|k: int| 0 <= k < 8 ==> (#[trigger] accents@[k])@ == body_accents()[k],
{
    let mut accents: Vec<Vec<char>> = Vec::new();
    accents.push(str_chars("reproducible"));
    accents.push(str_chars("declarative"));
    accents.push(str_chars("helix"));
    accents.push(str_chars("zellij"));
    accents.push(str_chars("terminals"));
    accents.push(str_chars("shells"));
    accents.push(str_chars("packs"));
    accents.push(str_chars("SSH"));
    accents
}

/// Sets `text` in green with every accent word in blue.
pub fn colorize_body(text: &str) -> (styled: String)
    ensures
        styled@ == colored_body(text@),
{
    let accents = accent_list();
    let mut rest = str_chars(text);
    let mut out: Vec<char> = Vec::new();
    proof {
        lemma_accents_nonempty();
    }
    loop
        invariant_except_break
            out@ + colored_body(rest@) == colored_body(text@),
        invariant
            accents@.len() == 8,
            forall|k: int| 0 <= k < 8 ==> (#[trigger] accents@[k])@ == body_accents()[k],
            body_accents().len() == 8,
            forall|k: int| 0 <= k < 8 ==> (#[trigger] body_accents()[k]).len() > 0,
        ensures
            out@ == colored_body(text@),
        decreases rest@.len(),
    {
        let mut best: Option<(usize, usize)> = None;
        let mut k: usize = 0;
        while k < 8
            invariant
                k <= 8,
                accents@.len() == 8,
                forall|k: int| 0 <= k < 8 ==> (#[trigger] accents@[k])@ == body_accents()[k],
                best matches Some(b) ==> earliest_accent(rest@, k as nat) == Some(
                    (b.0 as nat, b.1 as nat),
                ),
                best is None ==> earliest_accent(rest@, k as nat) is None,
            decreases 8 - k,
        {
            let found = find_chars(&rest, &accents[k]);
            match found {
                None => {},
                Some(p) => {
                    match best {
                        None => {
                            best = Some((p, k));
                        },
                        Some(b) => {
                            if p < b.0 {
                                best = Some((p, k));
                            }
                        },
                    }
                },
            }
            k = k + 1;
        }
        match best {
            None => {
                let ghost before = out@;
                push_sgr(&mut out, "32", &rest);
                proof {
                    assert(colored_body(rest@) == sgr("32"@, rest@));
                    assert(out@ == before + colored_body(rest@));
                }
                break ;
            },
            Some(b) => {
                let (p, j) = b;
                proof {
                    lemma_earliest_accent_occurs(rest@, 8);
                    assert(earliest_accent(rest@, 8) == Some((p as nat, j as nat)));
                    assert(j < 8);
                    assert(occurs_at(rest@, accents@[j as int]@, p as int));
                }
                let accent_len = accents[j].len();
                let rest_len = rest.len();
                proof {
                    assert(accent_len == accents@[j as int]@.len());
                    assert(p + accent_len <= rest@.len());
                }
                let prefix = chars_between(&rest, 0, p);
                let after = chars_between(&rest, p + accent_len, rest_len);
                let ghost before = out@;
                push_sgr(&mut out, "32", &prefix);
                push_sgr(&mut out, "34", &accents[j]);
                proof {
                    assert(prefix@ =~= rest@.take(p as int));
                    assert(after@ =~= rest@.skip(p + accent_len as int));
                    assert(colored_body(rest@) == sgr("32"@, rest@.take(p as int)) + sgr(
                        "34"@,
                        body_accents()[j as int],
                    ) + colored_body(after@));
                    assert(out@ =~= before + sgr("32"@, rest@.take(p as int)) + sgr(
                        "34"@,
                        body_accents()[j as int],
                    ));
                }
                rest = after;
            },
        }
    }
    string_from_chars(out)
}


/// Which welcome copy fits a terminal width: its box's inner width, whether
/// the body lines are centered, and the body lines themselves.
#[derive(Debug, Clone)]
pub struct WelcomeSpec {
    pub inner_width: usize,
    pub center_body: bool,
    pub body: Vec<&'static str>,
}

pub open spec fn welcome_inner_width(width: nat) -> nat {
    if width < 44 {
        22
    } else if width < 72 {
        34
    } else {
        58
    }
}

pub open spec fn welcome_body(width: nat) -> Seq<Seq<char>> {
    if width < 44 {
        seq!["yazi zellij helix"@, "one shell. one flow."@]
    } else if width < 72 {
        seq![
            "your reproducible terminal IDE"@,
            "zero-conflict helix/zellij keys"@,
            "top terminals, shells, and packs"@,
        ]
    } else if width < 120 {
        seq![
            "your reproducible, declarative terminal IDE"@,
            "zero-conflict keybindings between helix and zellij"@,
            "supports all top terminals and shells"@,
            "curated program packs (all configurable)"@,
        ]
    } else {
        seq![
            "your reproducible, declarative terminal IDE"@,
            "zero-conflict keybindings between helix and zellij"@,
            "supports all top terminals and shells"@,
            "curated program packs (all configurable)"@,
            "shines over SSH"@,
        ]
    }
}

impl WelcomeSpec {
    pub open spec fn body_view(&self) -> Seq<Seq<char>> {
        self.body@.map_values(|line: &'static str| line@)
    }

    /// The narrow, medium, wide or hero copy, by terminal width.
    pub fn for_width(width: usize) -> (spec: WelcomeSpec)
        ensures
            spec.inner_width == welcome_inner_width(width as nat),
            spec.center_body == (width >= 72),
            spec.body_view() == welcome_body(width as nat),
    {
        let spec = if width < 44 {
            WelcomeSpec {
                inner_width: 22,
                center_body: false,
                body: vec!["yazi zellij helix", "one shell. one flow."],
            }
        } else if width < 72 {
            WelcomeSpec {
                inner_width: 34,
                center_body: false,
                body: vec![
                    "your reproducible terminal IDE",
                    "zero-conflict helix/zellij keys",
                    "top terminals, shells, and packs",
                ],
            }
        } else if width < 120 {
            WelcomeSpec {
                inner_width: 58,
                center_body: true,
                body: vec![
                    "your reproducible, declarative terminal IDE",
                    "zero-conflict keybindings between helix and zellij",
                    "supports all top terminals and shells",
                    "curated program packs (all configurable)",
                ],
            }
        } else {
            WelcomeSpec {
                inner_width: 58,
                center_body: true,
                body: vec![
                    "your reproducible, declarative terminal IDE",
                    "zero-conflict keybindings between helix and zellij",
                    "supports all top terminals and shells",
                    "curated program packs (all configurable)",
                    "shines over SSH",
                ],
            }
        };
        assert(spec.body_view() =~= welcome_body(width as nat));
        spec
    }
}

/// `left`, `inner` horizontal rules, `right`.
pub open spec fn box_edge(left: char, inner: nat, right: char) -> Seq<char> {
    seq![left] + Seq::new(inner, |_i: int| '\u{2500}') + seq![right]
}

fn push_box_edge(out: &mut Vec<char>, left: char, inner: usize, right: char)
    ensures
        final(out)@ == old(out)@ + box_edge(left, inner as nat, right),
{
    let ghost start = out@;
    out.push(left);
    push_repeated(out, '\u{2500}', inner);
    out.push(right);
    proof {
        assert(out@ =~= start + box_edge(left, inner as nat, right));
    }
}

/// The title row: the colourful `YAZELIX`, or a dim `YZS` while the logo is
/// still forming.
pub open spec fn title_line(full_title: bool, content_width: nat) -> Seq<char> {
    if full_title {
        colored_logo(centered("YAZELIX"@, content_width))
    } else {
        sgr("2"@, centered("YZS"@, content_width))
    }
}

/// Body row `i`: shown in colour while `i < body_count`, a dim blank before.
pub open spec fn body_line(
    body: Seq<char>,
    i: int,
    body_count: nat,
    center_body: bool,
    content_width: nat,
) -> Seq<char> {
    if i < body_count {
        colored_body(
            if center_body {
                centered(body, content_width)
            } else {
                pad_right(body, content_width)
            },
        )
    } else {
        sgr("2"@, spaces(content_width))
    }
}

/// The rows of a welcome card before horizontal centering.
pub open spec fn card_rows(
    inner: nat,
    center_body: bool,
    body: Seq<Seq<char>>,
    body_count: nat,
    full_title: bool,
) -> Seq<Seq<char>> {
    let content_width = inner + 2;
    seq![sgr("35"@, box_edge('\u{256d}', inner, '\u{256e}')), title_line(full_title, content_width)]
        + Seq::new(
        body.len(),
        |i: int| body_line(body[i], i, body_count, center_body, content_width),
    ) + seq![
        sgr("33"@, centered("welcome to yazelix"@, content_width)),
        sgr("35"@, box_edge('\u{2570}', inner, '\u{256f}')),
    ]
}

/// The rows of a welcome card, each centered in `width` columns.
pub open spec fn card_frame(
    inner: nat,
    center_body: bool,
    body: Seq<Seq<char>>,
    body_count: nat,
    full_title: bool,
    width: nat,
) -> Seq<Seq<char>> {
    let rows = card_rows(inner, center_body, body, body_count, full_title);
    Seq::new(rows.len(), |i: int| centered(rows[i], width))
}

/// `rows` below as many empty rows as half of what they leave free of `height`.
pub open spec fn vertically_centered(rows: Seq<Seq<char>>, height: nat) -> Seq<Seq<char>> {
    let top = if height > rows.len() {
        ((height - rows.len()) / 2) as nat
    } else {
        0
    };
    Seq::new(top, |_i: int| Seq::<char>::empty()) + rows
}

/// The welcome card's rows for a terminal `width` columns wide, with the first
/// `body_count` body rows shown.
pub open spec fn welcome_rows(width: nat, body_count: nat, full_title: bool) -> Seq<Seq<char>> {
    card_rows(welcome_inner_width(width), width >= 72, welcome_body(width), body_count, full_title)
}

/// Those rows centered in the terminal.
pub open spec fn welcome_frame(width: nat, body_count: nat, full_title: bool) -> Seq<Seq<char>> {
    card_frame(
        welcome_inner_width(width),
        width >= 72,
        welcome_body(width),
        body_count,
        full_title,
        width,
    )
}

/// The welcome card with the first `body_count` body rows shown, centered in
/// `width` columns.
pub fn static_card_lines(spec: &WelcomeSpec, body_count: usize, full_title: bool, width: usize) -> (lines:
    Vec<String>)
    requires
        spec.inner_width + 2 <= usize::MAX,
    ensures
        string_views(lines@) == card_frame(
            spec.inner_width as nat,
            spec.center_body,
            spec.body_view(),
            body_count as nat,
            full_title,
            width as nat,
        ),
        lines@.len() == spec.body@.len() + 4,
        forall|i: int|
            0 <= i < lines@.len() ==> (#[trigger] lines@[i])@ == centered(
                card_rows(
                    spec.inner_width as nat,
                    spec.center_body,
                    spec.body_view(),
                    body_count as nat,
                    full_title,
                )[i],
                width as nat,
            ),
{
    let inner = spec.inner_width;
    let content_width = inner + 2;
    let ghost rows = card_rows(
        inner as nat,
        spec.center_body,
        spec.body_view(),
        body_count as nat,
        full_title,
    );
    let mut lines: Vec<String> = Vec::new();
    let mut top: Vec<char> = Vec::new();
    push_box_edge(&mut top, '\u{256d}', inner, '\u{256e}');
    let mut styled: Vec<char> = Vec::new();
    push_sgr(&mut styled, "35", &top);
    lines.push(string_from_chars(styled));
    if full_title {
        let title = string_from_chars(center_chars(str_chars("YAZELIX"), content_width));
        lines.push(colorize_logo(title.as_str()));
    } else {
        let mut styled: Vec<char> = Vec::new();
        push_sgr(&mut styled, "2", &center_chars(str_chars("YZS"), content_width));
        lines.push(string_from_chars(styled));
    }
    let mut i: usize = 0;
    while i < spec.body.len()
        invariant
            i <= spec.body@.len(),
            content_width == inner + 2,
            inner == spec.inner_width,
            rows == card_rows(
                inner as nat,
                spec.center_body,
                spec.body_view(),
                body_count as nat,
                full_title,
            ),
            lines@.len() == i + 2,
            forall|k: int| 0 <= k < i + 2 ==> (#[trigger] lines@[k])@ == rows[k],
        decreases spec.body.len() - i,
    {
        let body = str_chars(spec.body[i]);
        if i < body_count {
            let line = if spec.center_body {
                center_chars(body, content_width)
            } else {
                pad_right_chars(body, content_width)
            };
            let text = string_from_chars(line);
            lines.push(colorize_body(text.as_str()));
        } else {
            let mut blank: Vec<char> = Vec::new();
            push_spaces(&mut blank, content_width);
            let mut styled: Vec<char> = Vec::new();
            push_sgr(&mut styled, "2", &blank);
            lines.push(string_from_chars(styled));
        }
        proof {
            assert(spec.body_view()[i as int] == spec.body@[i as int]@);
        }
        i = i + 1;
    }
    let mut styled: Vec<char> = Vec::new();
    push_sgr(&mut styled, "33", &center_chars(str_chars("welcome to yazelix"), content_width));
    lines.push(string_from_chars(styled));
    let mut bottom: Vec<char> = Vec::new();
    push_box_edge(&mut bottom, '\u{2570}', inner, '\u{256f}');
    let mut styled: Vec<char> = Vec::new();
    push_sgr(&mut styled, "35", &bottom);
    lines.push(string_from_chars(styled));
    assert(rows.len() == spec.body@.len() + 4);
    assert forall|k: int| 0 <= k < lines@.len() implies (#[trigger] lines@[k])@ == rows[k] by {}
    let out = center_frame_lines(lines, width);
    assert(string_views(out@) =~= card_frame(
        inner as nat,
        spec.center_body,
        spec.body_view(),
        body_count as nat,
        full_title,
        width as nat,
    ));
    out
}

/// `lines` pushed down by half of the rows they leave free in `height`.
pub fn center_vertically(lines: Vec<String>, height: usize) -> (out: Vec<String>)
    ensures
        string_views(out@) == vertically_centered(string_views(lines@), height as nat),
        out@.len() == (if height > lines@.len() { (height - lines@.len()) / 2 } else { 0 })
            + lines@.len(),
        forall|i: int|
            0 <= i < out@.len() - lines@.len() ==> (#[trigger] out@[i])@ == Seq::<char>::empty(),
        forall|i: int|
            0 <= i < lines@.len() ==> (#[trigger] out@[out@.len() - lines@.len() + i]) == lines@[i],
{
    let top = height.saturating_sub(lines.len()) / 2;
    let mut out: Vec<String> = Vec::new();
    let mut i: usize = 0;
    while i < top
        invariant
            i <= top,
            out@.len() == i,
            forall|k: int| 0 <= k < i ==> (#[trigger] out@[k])@ == Seq::<char>::empty(),
        decreases top - i,
    {
        out.push(String::new());
        i = i + 1;
    }
    let mut j: usize = 0;
    while j < lines.len()
        invariant
            j <= lines@.len(),
            out@.len() == top + j,
            forall|k: int| 0 <= k < top ==> (#[trigger] out@[k])@ == Seq::<char>::empty(),
            forall|k: int| 0 <= k < j ==> (#[trigger] out@[top + k]) == lines@[k],
        decreases lines.len() - j,
    {
        out.push(lines[j].clone());
        j = j + 1;
    }
    let ghost expected = vertically_centered(string_views(lines@), height as nat);
    assert(expected.len() == out@.len());
    assert forall|i: int| 0 <= i < out@.len() implies string_views(out@)[i] == expected[i] by {
        if i >= top {
            assert(out@[top + (i - top)] == lines@[i - top]);
        }
    }
    assert(string_views(out@) =~= expected);
    out
}

/// The full welcome card for a terminal `width` columns wide.
pub fn static_card(width: usize) -> (lines: Vec<String>)
    ensures
        string_views(lines@) == welcome_frame(width as nat, welcome_body(width as nat).len(), true),
        lines@.len() == welcome_body(width as nat).len() + 4,
{
    let spec = WelcomeSpec::for_width(width);
    let count = spec.body.len();
    static_card_lines(&spec, count, true, width)
}

/// The logo animation's three frames, each centered in `width` x `height`:
/// the dim title alone, the full title with the first body row, and the
/// whole card.
pub fn logo_frames(width: usize, height: usize) -> (frames: Vec<Vec<String>>)
    ensures
        frames@.len() == 3,
        string_views(frames@[0]@) == vertically_centered(
            welcome_frame(width as nat, 0, false),
            height as nat,
        ),
        string_views(frames@[1]@) == vertically_centered(
            welcome_frame(width as nat, 1, true),
            height as nat,
        ),
        string_views(frames@[2]@) == vertically_centered(
            welcome_frame(width as nat, welcome_body(width as nat).len(), true),
            height as nat,
        ),
{
    let spec = WelcomeSpec::for_width(width);
    let count = spec.body.len();
    let full = static_card_lines(&spec, count, true, width);
    let title = static_card_lines(&spec, 0, false, width);
    let first = static_card_lines(&spec, 1, true, width);
    let mut frames: Vec<Vec<String>> = Vec::new();
    frames.push(center_vertically(title, height));
    frames.push(center_vertically(first, height));
    frames.push(center_vertically(full, height));
    frames
}


/// The keys that browse between animations, as the identity card shows them.
pub const BROWSE_HINT: &'static str = "\u{2190}/h previous \u{b7} l/\u{2192} next";

pub open spec fn title_color() -> RgbColor {
    RgbColor { red: 235, green: 241, blue: 250 }
}

pub open spec fn credit_color() -> RgbColor {
    RgbColor { red: 176, green: 190, blue: 210 }
}

pub open spec fn hint_color() -> RgbColor {
    RgbColor { red: 94, green: 183, blue: 194 }
}

pub open spec fn border_color() -> RgbColor {
    RgbColor { red: 64, green: 88, blue: 112 }
}

/// Words separated by single spaces.
pub open spec fn join_words(group: Seq<Seq<char>>) -> Seq<char>
    decreases group.len(),
{
    if group.len() == 0 {
        Seq::empty()
    } else if group.len() == 1 {
        group[0]
    } else {
        join_words(group.drop_last()) + seq![' '] + group.last()
    }
}

/// Greedy wrapping: each word joins the current line when the line, a space
/// and the word still fit in `available` columns, and otherwise opens the next
/// line. `current` is the line in progress, `done` the lines before it.
pub open spec fn wrap_groups(
    words: Seq<Seq<char>>,
    available: nat,
    current: Seq<Seq<char>>,
    done: Seq<Seq<Seq<char>>>,
) -> Seq<Seq<Seq<char>>>
    decreases words.len(),
{
    if words.len() == 0 {
        done.push(current)
    } else if current.len() > 0 && join_words(current).len() + 1 + words[0].len() > available {
        wrap_groups(words.drop_first(), available, seq![words[0]], done.push(current))
    } else {
        wrap_groups(words.drop_first(), available, current.push(words[0]), done)
    }
}

/// The words of `text` grouped into lines of at most `available` columns.
pub open spec fn wrapped_groups(text: Seq<char>, available: nat) -> Seq<Seq<Seq<char>>> {
    wrap_groups(words(text), available, Seq::empty(), Seq::empty())
}

pub open spec fn wrapped_lines(text: Seq<char>, available: nat) -> Seq<Seq<char>> {
    wrapped_groups(text, available).map_values(|group: Seq<Seq<char>>| join_words(group))
}

/// No word of `text` is wider than `available`.
pub open spec fn words_fit(text: Seq<char>, available: nat) -> bool {
    forall|i: int| 0 <= i < words(text).len() ==> (#[trigger] words(text)[i]).len() <= available
}

/// Wrapping keeps every word, in order: the lines' words, read one line after
/// another, are the words of the text.
pub proof fn lemma_wrap_keeps_words(text: Seq<char>, available: nat)
    ensures
        wrapped_groups(text, available).flatten_alt() == words(text),
{
    lemma_wrap_groups_flatten(words(text), available, Seq::empty(), Seq::empty());
    assert(Seq::<Seq<Seq<char>>>::empty().flatten_alt() + Seq::<Seq<char>>::empty() + words(text)
        =~= words(text));
}

proof fn lemma_wrap_groups_flatten(
    ws: Seq<Seq<char>>,
    available: nat,
    current: Seq<Seq<char>>,
    done: Seq<Seq<Seq<char>>>,
)
    ensures
        wrap_groups(ws, available, current, done).flatten_alt() == done.flatten_alt() + current
            + ws,
    decreases ws.len(),
{
    if ws.len() == 0 {
        assert(done.push(current).drop_last() =~= done);
        assert(done.flatten_alt() + current + ws =~= done.flatten_alt() + current);
    } else if current.len() > 0 && join_words(current).len() + 1 + ws[0].len() > available {
        lemma_wrap_groups_flatten(ws.drop_first(), available, seq![ws[0]], done.push(current));
        assert(done.push(current).drop_last() =~= done);
        assert(done.flatten_alt() + current + seq![ws[0]] + ws.drop_first() =~= done.flatten_alt()
            + current + ws);
    } else {
        lemma_wrap_groups_flatten(ws.drop_first(), available, current.push(ws[0]), done);
        assert(done.flatten_alt() + current.push(ws[0]) + ws.drop_first() =~= done.flatten_alt()
            + current + ws);
    }
}

/// When no word is wider than `available`, no wrapped line is either.
pub proof fn lemma_wrapped_lines_fit(text: Seq<char>, available: nat)
    requires
        words_fit(text, available),
    ensures
        forall|i: int|
            0 <= i < wrapped_lines(text, available).len() ==> (#[trigger] wrapped_lines(
                text,
                available,
            )[i]).len() <= available,
{
    lemma_wrap_groups_fit(words(text), available, Seq::empty(), Seq::empty());
}

proof fn lemma_join_push(group: Seq<Seq<char>>, word: Seq<char>)
    ensures
        join_words(group.push(word)) == if group.len() == 0 {
            word
        } else {
            join_words(group) + seq![' '] + word
        },
{
    assert(group.push(word).drop_last() =~= group);
}

proof fn lemma_wrap_groups_fit(
    ws: Seq<Seq<char>>,
    available: nat,
    current: Seq<Seq<char>>,
    done: Seq<Seq<Seq<char>>>,
)
    requires
        forall|i: int| 0 <= i < ws.len() ==> (#[trigger] ws[i]).len() <= available,
        join_words(current).len() <= available,
        forall|i: int| 0 <= i < done.len() ==> (#[trigger] join_words(done[i])).len() <= available,
    ensures
        forall|i: int|
            0 <= i < wrap_groups(ws, available, current, done).len() ==> (#[trigger] join_words(
                wrap_groups(ws, available, current, done)[i],
            )).len() <= available,
    decreases ws.len(),
{
    if ws.len() > 0 {
        let w = ws[0];
        let rest = ws.drop_first();
        assert forall|i: int| 0 <= i < rest.len() implies (#[trigger] rest[i]).len() <= available by {
            assert(rest[i] == ws[i + 1]);
        }
        if current.len() > 0 && join_words(current).len() + 1 + w.len() > available {
            let pushed = done.push(current);
            assert forall|i: int| 0 <= i < pushed.len() implies (#[trigger] join_words(
                pushed[i],
            )).len() <= available by {
                if i < done.len() {
                    assert(pushed[i] == done[i]);
                }
            }
            assert(join_words(seq![w]) == w);
            lemma_wrap_groups_fit(rest, available, seq![w], pushed);
            assert(wrap_groups(ws, available, current, done) == wrap_groups(
                rest,
                available,
                seq![w],
                pushed,
            ));
        } else {
            lemma_join_push(current, w);
            lemma_wrap_groups_fit(rest, available, current.push(w), done);
            assert(wrap_groups(ws, available, current, done) == wrap_groups(
                rest,
                available,
                current.push(w),
                done,
            ));
        }
    } else {
        let pushed = done.push(current);
        assert forall|i: int| 0 <= i < pushed.len() implies (#[trigger] join_words(
            pushed[i],
        )).len() <= available by {
            if i < done.len() {
                assert(pushed[i] == done[i]);
            }
        }
        assert(wrap_groups(ws, available, current, done) == pushed);
    }
}

/// Wraps `text` into lines of at most `available` columns, or gives `None`
/// when a word is wider than that: a word is never split.
pub fn wrap_text(text: &str, available: usize) -> (lines: Option<Vec<Vec<char>>>)
    ensures
        lines is None <==> !words_fit(text@, available as nat),
        lines matches Some(l) ==> l@.map_values(|line: Vec<char>| line@) == wrapped_lines(
            text@,
            available as nat,
        ),
{
    let chars = str_chars(text);
    let split = split_words(&chars);
    let ghost ws = words(text@);
    let mut line: Vec<char> = Vec::new();
    let mut in_line: usize = 0;
    let ghost mut current: Seq<Seq<char>> = Seq::empty();
    let mut done: Vec<Vec<char>> = Vec::new();
    let ghost mut done_groups: Seq<Seq<Seq<char>>> = Seq::empty();
    let mut i: usize = 0;
    assert(ws.skip(0) =~= ws);
    while i < split.len()
        invariant
            split@.map_values(|w: Vec<char>| w@) == ws,
            ws == words(text@),
            i <= split@.len(),
            forall|j: int| 0 <= j < i ==> (#[trigger] ws[j]).len() <= available,
            line@ == join_words(current),
            in_line == current.len(),
            in_line <= i,
            line@.len() <= available,
            done@.map_values(|l: Vec<char>| l@) == done_groups.map_values(
                |group: Seq<Seq<char>>| join_words(group),
            ),
            wrap_groups(ws.skip(i as int), available as nat, current, done_groups)
                == wrapped_groups(text@, available as nat),
        decreases split.len() - i,
    {
        let word = &split[i];
        proof {
            assert(word@ == ws[i as int]);
            assert(ws.skip(i as int)[0] == ws[i as int]);
            assert(ws.skip(i as int).drop_first() =~= ws.skip(i + 1));
        }
        if word.len() > available {
            proof {
                assert(!words_fit(text@, available as nat));
            }
            return None;
        }
        if in_line > 0 && (line.len() >= available || word.len() > available - line.len() - 1) {
            let ghost before = done@.map_values(|l: Vec<char>| l@);
            let finished = line;
            proof {
                assert(done@.push(finished).map_values(|l: Vec<char>| l@) =~= before.push(
                    finished@,
                ));
                assert(done_groups.push(current).map_values(
                    |group: Seq<Seq<char>>| join_words(group),
                ) =~= done_groups.map_values(|group: Seq<Seq<char>>| join_words(group)).push(
                    join_words(current),
                ));
            }
            done.push(finished);
            proof {
                done_groups = done_groups.push(current);
                current = seq![word@];
            }
            line = word.clone();
            in_line = 1;
            proof {
                assert(line@ =~= word@);
            }
        } else {
            let ghost old_current = current;
            if in_line > 0 {
                line.push(' ');
            }
            push_chars(&mut line, word);
            in_line = in_line + 1;
            proof {
                current = current.push(word@);
                assert(current.drop_last() =~= old_current);
                if old_current.len() == 0 {
                    assert(line@ =~= word@);
                } else {
                    assert(line@ =~= join_words(old_current) + seq![' '] + word@);
                }
            }
        }
        i = i + 1;
    }
    let ghost before = done@.map_values(|l: Vec<char>| l@);
    let finished = line;
    proof {
        assert(done@.push(finished).map_values(|l: Vec<char>| l@) =~= before.push(finished@));
        assert(ws.skip(i as int).len() == 0);
        assert(done_groups.push(current).map_values(|group: Seq<Seq<char>>| join_words(group))
            =~= done_groups.map_values(|group: Seq<Seq<char>>| join_words(group)).push(
            join_words(current),
        ));
    }
    done.push(finished);
    Some(done)
}

/// A card line between its borders, on a black backing that stops at the border.
pub open spec fn framed_line(line: Seq<char>, inner: nat) -> Seq<char> {
    seq!['\u{2502}'] + seq!['\x1b', '[', '4', '8', ';', '2', ';', '0', ';', '0', ';', '0', 'm', ' ']
        + pad_right(line, inner) + seq![' ', '\x1b', '[', '4', '9', 'm'] + seq!['\u{2502}']
}

/// The widest of `lines`.
pub open spec fn widest(lines: Seq<(Seq<char>, RgbColor)>) -> nat
    decreases lines.len(),
{
    if lines.len() == 0 {
        0
    } else {
        let rest = widest(lines.drop_last());
        if lines.last().0.len() > rest {
            lines.last().0.len()
        } else {
            rest
        }
    }
}

/// The card's rows: top border, the framed lines, bottom border.
pub open spec fn boxed_rows(lines: Seq<(Seq<char>, RgbColor)>) -> Seq<(Seq<char>, RgbColor)> {
    let inner = widest(lines);
    seq![(box_edge('\u{256d}', inner + 2, '\u{256e}'), border_color())] + lines.map_values(
        |line: (Seq<char>, RgbColor)| (framed_line(line.0, inner), line.1),
    ) + seq![(box_edge('\u{2570}', inner + 2, '\u{256f}'), border_color())]
}

pub open spec fn with_color(lines: Seq<Seq<char>>, color: RgbColor) -> Seq<(Seq<char>, RgbColor)> {
    lines.map_values(|line: Seq<char>| (line, color))
}

/// Two columns free on each side plus border and padding, and never wider
/// than 52 columns of text.
pub open spec fn card_available(width: nat) -> nat {
    if width <= 8 {
        0
    } else if width - 8 > 52 {
        52
    } else {
        (width - 8) as nat
    }
}

/// The identity card's rows for `style` in a `width` x `height` terminal:
/// nothing when a word of the title, credit or hint would have to be cut, or
/// when the card would not fit.
pub open spec fn identity_rows(style: AnimationStyle, width: nat, height: nat) -> Seq<
    (Seq<char>, RgbColor),
> {
    let available = card_available(width);
    let (title, credit) = credit_spec(style);
    if available == 0 || !words_fit(title, available) || !words_fit(credit, available)
        || !words_fit(BROWSE_HINT@, available) {
        Seq::empty()
    } else {
        let lines = with_color(wrapped_lines(title, available), title_color()) + with_color(
            wrapped_lines(credit, available),
            credit_color(),
        ) + with_color(wrapped_lines(BROWSE_HINT@, available), hint_color());
        if lines.len() + 4 > height {
            Seq::empty()
        } else {
            boxed_rows(lines)
        }
    }
}

/// One row of the identity card and the color it is drawn in.
#[derive(Debug, Clone, PartialEq, Eq)]
pub struct CardRow {
    pub text: String,
    pub color: RgbColor,
}

pub open spec fn card_rows_view(rows: Seq<CardRow>) -> Seq<(Seq<char>, RgbColor)> {
    rows.map_values(|row: CardRow| (row.text@, row.color))
}

fn push_colored_lines(
    lines: &mut Vec<(Vec<char>, RgbColor)>,
    wrapped: Vec<Vec<char>>,
    color: RgbColor,
)
    ensures
        final(lines)@.map_values(|line: (Vec<char>, RgbColor)| (line.0@, line.1)) == old(
            lines,
        )@.map_values(|line: (Vec<char>, RgbColor)| (line.0@, line.1)) + with_color(
            wrapped@.map_values(|line: Vec<char>| line@),
            color,
        ),
{
    let ghost start = lines@.map_values(|line: (Vec<char>, RgbColor)| (line.0@, line.1));
    let ghost added = with_color(wrapped@.map_values(|line: Vec<char>| line@), color);
    let mut i: usize = 0;
    while i < wrapped.len()
        invariant
            i <= wrapped@.len(),
            added == with_color(wrapped@.map_values(|line: Vec<char>| line@), color),
            lines@.map_values(|line: (Vec<char>, RgbColor)| (line.0@, line.1)) == start
                + added.take(i as int),
        decreases wrapped.len() - i,
    {
        let ghost before = lines@.map_values(|line: (Vec<char>, RgbColor)| (line.0@, line.1));
        let copy = wrapped[i].clone();
        proof {
            assert(copy@ =~= wrapped@[i as int]@);
        }
        lines.push((copy, color));
        proof {
            assert(lines@.map_values(|line: (Vec<char>, RgbColor)| (line.0@, line.1)) =~= before.push(
                (wrapped@[i as int]@, color),
            ));
            assert(added.take(i + 1) =~= added.take(i as int).push(added[i as int]));
            assert(lines@.map_values(|line: (Vec<char>, RgbColor)| (line.0@, line.1)) =~= start
                + added.take(i + 1));
        }
        i = i + 1;
    }
    proof {
        assert(added.take(i as int) =~= added);
    }
}

/// The rows of `style`'s identity card in a `width` x `height` terminal, each
/// with the color it is drawn in at full intensity.
pub fn identity_card_rows(style: AnimationStyle, width: usize, height: usize) -> (rows: Vec<
    CardRow,
>)
    ensures
        card_rows_view(rows@) == identity_rows(style, width as nat, height as nat),
{
    let available = if width <= 8 {
        0
    } else if width - 8 > 52 {
        52
    } else {
        width - 8
    };
    if available == 0 {
        proof {
            assert(card_rows_view(Seq::<CardRow>::empty()) =~= Seq::empty());
        }
        return Vec::new();
    }
    let (title, credit) = animation_credit(style);
    let mut lines: Vec<(Vec<char>, RgbColor)> = Vec::new();
    let title_lines = match wrap_text(title, available) {
        Some(l) => l,
        None => {
            proof {
                assert(card_rows_view(Seq::<CardRow>::empty()) =~= Seq::empty());
            }
            return Vec::new();
        },
    };
    let credit_lines = match wrap_text(credit, available) {
        Some(l) => l,
        None => {
            proof {
                assert(card_rows_view(Seq::<CardRow>::empty()) =~= Seq::empty());
            }
            return Vec::new();
        },
    };
    let hint_lines = match wrap_text(BROWSE_HINT, available) {
        Some(l) => l,
        None => {
            proof {
                assert(card_rows_view(Seq::<CardRow>::empty()) =~= Seq::empty());
            }
            return Vec::new();
        },
    };
    push_colored_lines(&mut lines, title_lines, RgbColor::new(235, 241, 250));
    push_colored_lines(&mut lines, credit_lines, RgbColor::new(176, 190, 210));
    push_colored_lines(&mut lines, hint_lines, RgbColor::new(94, 183, 194));
    let ghost lines_view = lines@.map_values(|line: (Vec<char>, RgbColor)| (line.0@, line.1));
    proof {
        let a = available as nat;
        lemma_wrapped_lines_fit(title@, a);
        lemma_wrapped_lines_fit(credit@, a);
        lemma_wrapped_lines_fit(BROWSE_HINT@, a);
        let t = with_color(wrapped_lines(title@, a), title_color());
        let c = with_color(wrapped_lines(credit@, a), credit_color());
        let h = with_color(wrapped_lines(BROWSE_HINT@, a), hint_color());
        assert(lines_view =~= t + c + h);
        assert forall|j: int| 0 <= j < lines_view.len() implies (#[trigger] lines_view[j]).0.len()
            <= available by {
            if j < t.len() {
                assert(lines_view[j] == t[j]);
            } else if j < t.len() + c.len() {
                assert(lines_view[j] == c[j - t.len()]);
            } else {
                assert(lines_view[j] == h[j - t.len() - c.len()]);
            }
        }
    }
    if lines.len() > height || height - lines.len() < 4 {
        proof {
            assert(card_rows_view(Seq::<CardRow>::empty()) =~= Seq::empty());
        }
        return Vec::new();
    }
    let mut inner: usize = 0;
    let mut i: usize = 0;
    while i < lines.len()
        invariant
            i <= lines@.len(),
            lines_view == lines@.map_values(|line: (Vec<char>, RgbColor)| (line.0@, line.1)),
            inner == widest(lines_view.take(i as int)),
            inner <= available,
            available <= 52,
            forall|j: int| 0 <= j < lines_view.len() ==> (#[trigger] lines_view[j]).0.len()
                <= available,
        decreases lines.len() - i,
    {
        proof {
            assert(lines_view.take(i + 1).drop_last() =~= lines_view.take(i as int));
            assert(lines_view[i as int].0 == lines@[i as int].0@);
            assert(lines_view[i as int].0.len() <= available);
        }
        if lines[i].0.len() > inner {
            inner = lines[i].0.len();
        }
        i = i + 1;
    }
    proof {
        assert(lines_view.take(i as int) =~= lines_view);
    }
    let ghost expected = boxed_rows(lines_view);
    let mut rows: Vec<CardRow> = Vec::new();
    let mut top: Vec<char> = Vec::new();
    push_box_edge(&mut top, '\u{256d}', inner + 2, '\u{256e}');
    rows.push(CardRow { text: string_from_chars(top), color: RgbColor::new(64, 88, 112) });
    let mut k: usize = 0;
    while k < lines.len()
        invariant
            k <= lines@.len(),
            lines_view == lines@.map_values(|line: (Vec<char>, RgbColor)| (line.0@, line.1)),
            inner == widest(lines_view),
            expected == boxed_rows(lines_view),
            rows@.len() == k + 1,
            forall|j: int| 0 <= j <= k ==> (#[trigger] card_rows_view(rows@)[j]) == expected[j],
        decreases lines.len() - k,
    {
        let mut text: Vec<char> = Vec::new();
        text.push('\u{2502}');
        push_str(&mut text, "\x1b[48;2;0;0;0m ");
        push_chars(&mut text, &pad_right_chars(lines[k].0.clone(), inner));
        push_str(&mut text, " \x1b[49m");
        text.push('\u{2502}');
        proof {
            reveal_strlit("\x1b[48;2;0;0;0m ");
            reveal_strlit(" \x1b[49m");
            assert(text@ =~= framed_line(lines_view[k as int].0, inner as nat));
        }
        let ghost before = rows@;
        rows.push(CardRow { text: string_from_chars(text), color: lines[k].1 });
        proof {
            assert(expected[k + 1] == (framed_line(lines_view[k as int].0, inner as nat), lines_view[k as int].1));
            assert forall|j: int| 0 <= j <= k + 1 implies (#[trigger] card_rows_view(rows@)[j])
                == expected[j] by {
                if j <= k {
                    assert(rows@[j] == before[j]);
                    assert(card_rows_view(before)[j] == expected[j]);
                }
            }
        }
        k = k + 1;
    }
    let mut bottom: Vec<char> = Vec::new();
    push_box_edge(&mut bottom, '\u{2570}', inner + 2, '\u{256f}');
    let ghost before = rows@;
    rows.push(CardRow { text: string_from_chars(bottom), color: RgbColor::new(64, 88, 112) });
    proof {
        assert(expected.len() == lines_view.len() + 2);
        assert forall|j: int| 0 <= j < rows@.len() implies (#[trigger] card_rows_view(rows@)[j])
            == expected[j] by {
            if j <= k {
                assert(rows@[j] == before[j]);
                assert(card_rows_view(before)[j] == expected[j]);
            }
        }
        assert(card_rows_view(rows@) =~= expected);
    }
    rows
}


/// Row `row` of the card, placed two rows down plus `row`, at column three,
/// in `color`.
pub open spec fn placed_row(row: nat, text: Seq<char>, color: RgbColor) -> Seq<char> {
    row_position(row) + rgb_foreground(color) + text + seq!['\x1b', '[', '0', 'm']
}

pub open spec fn card_output(rows: Seq<(Seq<char>, RgbColor)>) -> Seq<char> {
    concat(Seq::new(rows.len(), |i: int| placed_row(i as nat, rows[i].0, rows[i].1)))
}

fn push_csi(out: &mut Vec<char>)
    ensures
        final(out)@ == old(out)@ + seq!['\x1b', '['],
{
    out.push('\x1b');
    out.push('[');
}

fn push_reset(out: &mut Vec<char>)
    ensures
        final(out)@ == old(out)@ + seq!['\x1b', '[', '0', 'm'],
{
    let ghost start = out@;
    push_csi(out);
    out.push('0');
    out.push('m');
    assert(out@ =~= start + seq!['\x1b', '[', '0', 'm']);
}

pub open spec fn row_position(row: nat) -> Seq<char> {
    seq!['\x1b', '['] + decimal(row + 2) + seq![';', '3', 'H', '\x1b', '[', '0', 'm']
}

pub open spec fn rgb_foreground(color: RgbColor) -> Seq<char> {
    seq!['\x1b', '[', '3', '8', ';', '2', ';'] + decimal(color.red as nat) + seq![';'] + decimal(
        color.green as nat,
    ) + seq![';'] + decimal(color.blue as nat) + seq!['m']
}

fn push_row_position(out: &mut Vec<char>, row: usize)
    requires
        row + 2 <= usize::MAX,
    ensures
        final(out)@ == old(out)@ + row_position(row as nat),
{
    let ghost start = out@;
    push_csi(out);
    push_decimal(out, row + 2);
    out.push(';');
    out.push('3');
    out.push('H');
    push_reset(out);
    assert(out@ =~= start + row_position(row as nat));
}

fn push_rgb_foreground(out: &mut Vec<char>, color: RgbColor)
    ensures
        final(out)@ == old(out)@ + rgb_foreground(color),
{
    let ghost start = out@;
    push_csi(out);
    out.push('3');
    out.push('8');
    out.push(';');
    out.push('2');
    out.push(';');
    push_decimal(out, color.red as usize);
    out.push(';');
    push_decimal(out, color.green as usize);
    out.push(';');
    push_decimal(out, color.blue as usize);
    out.push('m');
    assert(out@ =~= start + rgb_foreground(color));
}

fn push_placed_row(out: &mut Vec<char>, row: usize, text: &String, color: RgbColor)
    requires
        row + 2 <= usize::MAX,
    ensures
        final(out)@ == old(out)@ + placed_row(row as nat, text@, color),
{
    let ghost start = out@;
    push_row_position(out, row);
    push_rgb_foreground(out, color);
    push_str(out, text.as_str());
    push_reset(out);
    assert(out@ =~= start + placed_row(row as nat, text@, color));
}

/// The escape sequences that draw `rows` over the current frame, each at its
/// place and in its color.
pub fn render_identity_card(rows: &Vec<CardRow>) -> (out: String)
    requires
        rows@.len() + 2 <= usize::MAX,
    ensures
        out@ == card_output(card_rows_view(rows@)),
{
    let ghost view = card_rows_view(rows@);
    let ghost pieces = Seq::new(view.len(), |i: int| placed_row(i as nat, view[i].0, view[i].1));
    let mut out: Vec<char> = Vec::new();
    let mut i: usize = 0;
    proof {
        assert(pieces.take(0) =~= Seq::<Seq<char>>::empty());
    }
    while i < rows.len()
        invariant
            i <= rows@.len(),
            rows@.len() + 2 <= usize::MAX,
            view == card_rows_view(rows@),
            pieces == Seq::new(view.len(), |i: int| placed_row(i as nat, view[i].0, view[i].1)),
            out@ == concat(pieces.take(i as int)),
        decreases rows.len() - i,
    {
        let ghost before = out@;
        let row = &rows[i];
        push_placed_row(&mut out, i, &row.text, row.color);
        proof {
            assert(view[i as int] == (row.text@, row.color));
            assert(out@ =~= before + pieces[i as int]);
            assert(pieces.take(i + 1) =~= pieces.take(i as int).push(pieces[i as int]));
            lemma_concat_push(pieces.take(i as int), pieces[i as int]);
        }
        i = i + 1;
    }
    proof {
        assert(pieces.take(i as int) =~= pieces);
    }
    string_from_chars(out)
}

} // verus!
