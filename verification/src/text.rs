//! Character-level text model: how many terminal columns a string occupies once
//! CSI escape sequences are skipped, and helpers that build text from characters.

use vstd::prelude::*;

verus! {

/// The escape character that opens a control sequence.
pub open spec fn esc() -> char {
    '\x1b'
}

/// The control sequence introducer `ESC [`.
pub open spec fn csi() -> Seq<char> {
    seq!['\x1b', '[']
}

pub open spec fn is_ascii_alpha(c: char) -> bool {
    ('a' <= c && c <= 'z') || ('A' <= c && c <= 'Z')
}

/// Scanner states: 0 = plain text, 1 = an escape was just seen and is not yet
/// known to open a control sequence, 2 = inside a control sequence.
pub open spec fn scan_next(state: int, c: char) -> int {
    if state == 1 {
        if c == '[' {
            2
        } else if c == esc() {
            1
        } else {
            0
        }
    } else if state == 2 {
        if is_ascii_alpha(c) {
            0
        } else {
            2
        }
    } else {
        if c == esc() {
            1
        } else {
            0
        }
    }
}

/// Columns that reading `c` in `state` settles.
pub open spec fn scan_gain(state: int, c: char) -> nat {
    if state == 1 {
        if c == '[' {
            0
        } else if c == esc() {
            1
        } else {
            2
        }
    } else if state == 2 {
        0
    } else {
        if c == esc() {
            0
        } else {
            1
        }
    }
}

pub open spec fn scan_count(s: Seq<char>, state: int) -> nat
    decreases s.len(),
{
    if s.len() == 0 {
        0
    } else {
        scan_gain(state, s[0]) + scan_count(s.drop_first(), scan_next(state, s[0]))
    }
}

pub open spec fn scan_end(s: Seq<char>, state: int) -> int
    decreases s.len(),
{
    if s.len() == 0 {
        state
    } else {
        scan_end(s.drop_first(), scan_next(state, s[0]))
    }
}

/// Terminal columns of `s`: every character counts, except that `ESC [` and
/// everything up to and including the next ASCII letter count for nothing.
pub open spec fn visible_width(s: Seq<char>) -> nat {
    scan_count(s, 0) + if scan_end(s, 0) == 1 {
        1nat
    } else {
        0nat
    }
}

/// `s` leaves the scanner in plain-text state.
pub open spec fn closed(s: Seq<char>) -> bool {
    scan_end(s, 0) == 0
}

pub open spec fn spaces(n: nat) -> Seq<char> {
    Seq::new(n, |_i: int| ' ')
}

/// `s` padded with spaces on both sides to `width` columns, the extra space
/// going right; unchanged when it is already at least that wide.
pub open spec fn centered(s: Seq<char>, width: nat) -> Seq<char> {
    let w = visible_width(s);
    if w >= width {
        s
    } else {
        let left = ((width - w) / 2) as nat;
        spaces(left) + s + spaces((width - w - left) as nat)
    }
}

/// The concatenation of `pieces`, in order.
pub open spec fn concat(pieces: Seq<Seq<char>>) -> Seq<char>
    decreases pieces.len(),
{
    if pieces.len() == 0 {
        Seq::empty()
    } else {
        concat(pieces.drop_last()) + pieces.last()
    }
}

/// Concatenating one more piece appends it.
pub proof fn lemma_concat_push(pieces: Seq<Seq<char>>, piece: Seq<char>)
    ensures
        concat(pieces.push(piece)) == concat(pieces) + piece,
{
    assert(pieces.push(piece).drop_last() =~= pieces);
}

/// Scanning two texts one after the other is scanning the first, then the second from where the first left off.
pub proof fn lemma_scan_append(a: Seq<char>, b: Seq<char>, state: int)
    ensures
        scan_count(a + b, state) == scan_count(a, state) + scan_count(b, scan_end(a, state)),
        scan_end(a + b, state) == scan_end(b, scan_end(a, state)),
    decreases a.len(),
{
    if a.len() == 0 {
        assert(a + b =~= b);
    } else {
        assert((a + b).drop_first() =~= a.drop_first() + b);
        lemma_scan_append(a.drop_first(), b, scan_next(state, a[0]));
    }
}

/// A scan counts no more columns than there are characters, and ends in one of its three states.
pub proof fn lemma_scan_bound(s: Seq<char>, state: int)
    requires
        0 <= state <= 2,
    ensures
        scan_count(s, state) + (if scan_end(s, state) == 1 { 1int } else { 0int }) <= s.len() + (
        if state == 1 {
            1int
        } else {
            0int
        }),
        0 <= scan_end(s, state) <= 2,
    decreases s.len(),
{
    if s.len() > 0 {
        lemma_scan_bound(s.drop_first(), scan_next(state, s[0]));
    }
}

/// Widths add up across a closed prefix.
pub proof fn lemma_width_append(a: Seq<char>, b: Seq<char>)
    requires
        closed(a),
    ensures
        visible_width(a + b) == visible_width(a) + visible_width(b),
        closed(a + b) == closed(b),
{
    lemma_scan_append(a, b, 0);
}

/// Text without escape characters is as wide as it is long.
pub open spec fn plain(s: Seq<char>) -> bool {
    forall|i: int| 0 <= i < s.len() ==> s[i] != esc()
}

/// Text without escapes is as wide as it is long and leaves the scanner in plain text.
pub proof fn lemma_plain_width(s: Seq<char>)
    requires
        plain(s),
    ensures
        scan_count(s, 0) == s.len(),
        scan_end(s, 0) == 0,
        visible_width(s) == s.len(),
        closed(s),
    decreases s.len(),
{
    if s.len() > 0 {
        assert(plain(s.drop_first()));
        lemma_plain_width(s.drop_first());
    }
}

/// A control sequence: `ESC [`, parameters without letters, and a final letter.
pub open spec fn control_sequence(s: Seq<char>) -> bool {
    &&& s.len() >= 3
    &&& s[0] == esc()
    &&& s[1] == '['
    &&& is_ascii_alpha(s.last())
    &&& forall|i: int| 2 <= i < s.len() - 1 ==> !is_ascii_alpha(#[trigger] s[i])
}

/// Scanning one character.
pub proof fn lemma_scan_single(c: char, state: int)
    ensures
        scan_count(seq![c], state) == scan_gain(state, c),
        scan_end(seq![c], state) == scan_next(state, c),
{
    reveal_with_fuel(scan_count, 2);
    reveal_with_fuel(scan_end, 2);
    assert(seq![c].drop_first() =~= Seq::<char>::empty());
}

proof fn lemma_control_tail(s: Seq<char>)
    requires
        s.len() >= 1,
        is_ascii_alpha(s.last()),
        forall|i: int| 0 <= i < s.len() - 1 ==> !is_ascii_alpha(#[trigger] s[i]),
    ensures
        scan_count(s, 2) == 0,
        scan_end(s, 2) == 0,
    decreases s.len(),
{
    reveal_with_fuel(scan_count, 2);
    reveal_with_fuel(scan_end, 2);
    if s.len() > 1 {
        assert(!is_ascii_alpha(s[0]));
        let t = s.drop_first();
        assert forall|i: int| 0 <= i < t.len() - 1 implies !is_ascii_alpha(#[trigger] t[i]) by {
            assert(t[i] == s[i + 1]);
        }
        lemma_control_tail(t);
    } else {
        assert(s[0] == s.last());
        assert(s.drop_first() =~= Seq::<char>::empty());
    }
}

/// A control sequence takes no columns and leaves the scanner in plain text.
pub proof fn lemma_control_width(s: Seq<char>)
    requires
        control_sequence(s),
    ensures
        scan_count(s, 0) == 0,
        closed(s),
        visible_width(s) == 0,
{
    let t = s.skip(2);
    assert forall|i: int| 0 <= i < t.len() - 1 implies !is_ascii_alpha(#[trigger] t[i]) by {
        assert(t[i] == s[i + 2]);
    }
    assert(t.last() == s.last());
    lemma_control_tail(t);
    assert(s.drop_first().drop_first() =~= t);
    assert(s.drop_first()[0] == '[');
    assert(scan_count(s.drop_first(), 1) == scan_count(t, 2));
    assert(scan_end(s.drop_first(), 1) == scan_end(t, 2));
}

/// A single character other than escape takes one column.
pub proof fn lemma_glyph_width(c: char)
    requires
        c != esc(),
    ensures
        visible_width(seq![c]) == 1,
        closed(seq![c]),
{
    lemma_scan_single(c, 0);
}

/// Spaces are plain text.
pub proof fn lemma_spaces_plain(n: nat)
    ensures
        plain(spaces(n)),
        visible_width(spaces(n)) == n,
        closed(spaces(n)),
        spaces(n).len() == n,
{
    lemma_plain_width(spaces(n));
}

/// Spaces read right after a lone escape settle that escape as one column.
proof fn lemma_spaces_after_escape(n: nat)
    requires
        n >= 1,
    ensures
        scan_count(spaces(n), 1) == n + 1,
        scan_end(spaces(n), 1) == 0,
{
    let sp = spaces(n);
    assert(sp[0] == ' ');
    assert(sp.drop_first() =~= spaces((n - 1) as nat));
    lemma_spaces_plain((n - 1) as nat);
}

/// Centering yields exactly the requested width, or leaves wider text alone,
/// for any text that does not end inside a control sequence (a trailing lone
/// escape counts as one column).
pub proof fn lemma_centered_width(s: Seq<char>, width: nat)
    requires
        scan_end(s, 0) != 2,
    ensures
        visible_width(centered(s, width)) == if visible_width(s) >= width {
            visible_width(s)
        } else {
            width
        },
        closed(s) ==> closed(centered(s, width)),
        scan_end(centered(s, width), 0) != 2,
{
    let w = visible_width(s);
    lemma_scan_bound(s, 0);
    if w < width {
        let left = ((width - w) / 2) as nat;
        let right = (width - w - left) as nat;
        assert(right >= 1);
        lemma_spaces_plain(left);
        lemma_spaces_plain(right);
        lemma_width_append(spaces(left), s + spaces(right));
        assert(spaces(left) + s + spaces(right) =~= spaces(left) + (s + spaces(right)));
        lemma_scan_append(s, spaces(right), 0);
        if scan_end(s, 0) == 1 {
            lemma_spaces_after_escape(right);
        }
    }
}

/// Centering text that is already centered changes nothing, for any text that
/// does not end inside a control sequence.
pub proof fn lemma_centering_is_idempotent(s: Seq<char>, width: nat)
    requires
        scan_end(s, 0) != 2,
    ensures
        centered(centered(s, width), width) == centered(s, width),
{
    lemma_centered_width(s, width);
}

/// Pieces that each take one column and leave the scanner in plain text
/// concatenate to one column per piece.
pub proof fn lemma_concat_unit_width(pieces: Seq<Seq<char>>)
    requires
        forall|i: int|
            0 <= i < pieces.len() ==> visible_width(#[trigger] pieces[i]) == 1 && closed(pieces[i]),
    ensures
        visible_width(concat(pieces)) == pieces.len(),
        closed(concat(pieces)),
    decreases pieces.len(),
{
    if pieces.len() == 0 {
        lemma_plain_width(Seq::<char>::empty());
    } else {
        let init = pieces.drop_last();
        assert forall|i: int| 0 <= i < init.len() implies visible_width(#[trigger] init[i]) == 1
            && closed(init[i]) by {
            assert(init[i] == pieces[i]);
        }
        lemma_concat_unit_width(init);
        lemma_width_append(concat(init), pieces.last());
    }
}

pub open spec fn digit_char(d: nat) -> char {
    (d + 48) as char
}

/// Decimal digits of `n`, most significant first, without leading zeros.
pub open spec fn decimal(n: nat) -> Seq<char>
    decreases n,
{
    if n < 10 {
        seq![digit_char(n)]
    } else {
        decimal(n / 10).push(digit_char(n % 10))
    }
}

/// Appends the decimal digits of `n`.
pub fn push_decimal(out: &mut Vec<char>, n: usize)
    ensures
        final(out)@ == old(out)@ + decimal(n as nat),
    decreases n,
{
    if n >= 10 {
        push_decimal(out, n / 10);
    }
    let d = n % 10;
    let c = if d == 0 {
        '0'
    } else if d == 1 {
        '1'
    } else if d == 2 {
        '2'
    } else if d == 3 {
        '3'
    } else if d == 4 {
        '4'
    } else if d == 5 {
        '5'
    } else if d == 6 {
        '6'
    } else if d == 7 {
        '7'
    } else if d == 8 {
        '8'
    } else {
        '9'
    };
    assert(c == digit_char(d as nat));
    out.push(c);
}

/// Builds a `String` holding exactly the given characters.
#[verifier::external_body]
pub fn string_from_chars(chars: Vec<char>) -> (text: String)
    ensures
        text@ == chars@,
{
    String::from_iter(chars)
}

/// The characters of `text`, in order.
pub fn str_chars(text: &str) -> (chars: Vec<char>)
    ensures
        chars@ == text@,
{
    let mut chars: Vec<char> = Vec::new();
    for c in it: text.chars()
        invariant
            chars@ == it.seq().take(it.index() as int),
    {
        chars.push(c);
    }
    chars
}

/// Appends `count` spaces.
pub fn push_spaces(out: &mut Vec<char>, count: usize)
    ensures
        final(out)@ == old(out)@ + spaces(count as nat),
{
    let ghost start = out@;
    let mut i: usize = 0;
    while i < count
        invariant
            i <= count,
            out@ == start + spaces(i as nat),
        decreases count - i,
    {
        out.push(' ');
        i = i + 1;
        assert(out@ =~= start + spaces(i as nat));
    }
}

/// Appends the characters of `piece`.
pub fn push_chars(out: &mut Vec<char>, piece: &Vec<char>)
    ensures
        final(out)@ == old(out)@ + piece@,
{
    let mut copy = piece.clone();
    proof {
        assert(copy@ =~= piece@);
    }
    out.append(&mut copy);
}

/// Appends the characters of `piece`.
pub fn push_str(out: &mut Vec<char>, piece: &str)
    ensures
        final(out)@ == old(out)@ + piece@,
{
    let mut chars = str_chars(piece);
    out.append(&mut chars);
}

/// Number of terminal columns that `chars` occupies.
pub fn char_width(chars: &Vec<char>) -> (width: usize)
    ensures
        width == visible_width(chars@),
{
    let mut count: usize = 0;
    let mut state: u8 = 0;
    let mut i: usize = 0;
    while i < chars.len()
        invariant
            i <= chars.len(),
            count == scan_count(chars@.take(i as int), 0),
            state as int == scan_end(chars@.take(i as int), 0),
            state <= 2,
        decreases chars.len() - i,
    {
        let c = chars[i];
        proof {
            lemma_scan_append(chars@.take(i as int), seq![c], 0);
            assert(chars@.take(i as int) + seq![c] =~= chars@.take(i + 1));
            lemma_scan_single(c, 0);
            lemma_scan_single(c, state as int);
            lemma_scan_bound(chars@.take(i + 1), 0);
            assert(scan_end(chars@.take(i + 1), 0) == scan_next(state as int, c));
        }
        if state == 1 {
            if c == '[' {
                state = 2;
            } else if c == '\x1b' {
                count = count + 1;
            } else {
                count = count + 2;
                state = 0;
            }
        } else if state == 2 {
            if ('a' <= c && c <= 'z') || ('A' <= c && c <= 'Z') {
                state = 0;
            }
        } else if c == '\x1b' {
            state = 1;
        } else {
            count = count + 1;
        }
        i = i + 1;
    }
    proof {
        assert(chars@.take(i as int) =~= chars@);
        lemma_scan_bound(chars@, 0);
    }
    if state == 1 {
        count + 1
    } else {
        count
    }
}

/// Number of terminal columns that `line` occupies once CSI escape sequences
/// (`ESC [` up to and including the next ASCII letter) are skipped.
pub fn visible_line_width(line: &str) -> (width: usize)
    ensures
        width == visible_width(line@),
{
    let chars = str_chars(line);
    char_width(&chars)
}

/// `chars` centered in `width` columns.
pub fn center_chars(chars: Vec<char>, width: usize) -> (out: Vec<char>)
    ensures
        out@ == centered(chars@, width as nat),
{
    let visible = char_width(&chars);
    if visible >= width {
        return chars;
    }
    let left = (width - visible) / 2;
    let right = width - visible - left;
    let mut out: Vec<char> = Vec::new();
    push_spaces(&mut out, left);
    push_chars(&mut out, &chars);
    push_spaces(&mut out, right);
    proof {
        assert(out@ =~= centered(chars@, width as nat));
    }
    out
}

/// `text` padded with spaces on both sides to `width` visible columns, with the
/// odd space on the right; text already that wide is returned unchanged.
pub fn center_text(text: &str, width: usize) -> (centered_text: String)
    ensures
        centered_text@ == centered(text@, width as nat),
{
    string_from_chars(center_chars(str_chars(text), width))
}

/// Centers every line that is narrower than `width`.
pub fn center_frame_lines(lines: Vec<String>, width: usize) -> (out: Vec<String>)
    ensures
        out@.len() == lines@.len(),
        forall|i: int| 0 <= i < lines@.len() ==> (#[trigger] out@[i])@ == centered(lines@[i]@, width as nat),
{
    let mut out: Vec<String> = Vec::new();
    let mut i: usize = 0;
    while i < lines.len()
        invariant
            i <= lines.len(),
            out@.len() == i,
            forall|j: int| 0 <= j < i ==> (#[trigger] out@[j])@ == centered(lines@[j]@, width as nat),
        decreases lines.len() - i,
    {
        let line = center_text(lines[i].as_str(), width);
        out.push(line);
        i = i + 1;
    }
    out
}

/// Characters with the Unicode `White_Space` property.
pub open spec fn is_whitespace(c: char) -> bool {
    ('\u{9}' <= c <= '\u{d}') || c == ' ' || c == '\u{85}' || c == '\u{a0}' || c == '\u{1680}'
        || ('\u{2000}' <= c <= '\u{200a}') || c == '\u{2028}' || c == '\u{2029}' || c
        == '\u{202f}' || c == '\u{205f}' || c == '\u{3000}'
}

pub fn char_is_whitespace(c: char) -> (ws: bool)
    ensures
        ws == is_whitespace(c),
{
    ('\u{9}' <= c && c <= '\u{d}') || c == ' ' || c == '\u{85}' || c == '\u{a0}' || c == '\u{1680}'
        || ('\u{2000}' <= c && c <= '\u{200a}') || c == '\u{2028}' || c == '\u{2029}' || c
        == '\u{202f}' || c == '\u{205f}' || c == '\u{3000}'
}

pub open spec fn trim_start(s: Seq<char>) -> Seq<char>
    decreases s.len(),
{
    if s.len() > 0 && is_whitespace(s[0]) {
        trim_start(s.drop_first())
    } else {
        s
    }
}

pub open spec fn trim_end(s: Seq<char>) -> Seq<char>
    decreases s.len(),
{
    if s.len() > 0 && is_whitespace(s.last()) {
        trim_end(s.drop_last())
    } else {
        s
    }
}

/// `s` without leading and trailing whitespace.
pub open spec fn trimmed(s: Seq<char>) -> Seq<char> {
    trim_end(trim_start(s))
}

pub open spec fn lower_char(c: char) -> char {
    if 'A' <= c <= 'Z' {
        ((c as u32) + 32) as char
    } else {
        c
    }
}

/// ASCII letters in lower case, everything else unchanged.
pub open spec fn ascii_lower(s: Seq<char>) -> Seq<char> {
    s.map_values(|c: char| lower_char(c))
}

/// Trimmed and lower-cased: how style names are compared.
pub open spec fn normalized(s: Seq<char>) -> Seq<char> {
    ascii_lower(trimmed(s))
}

/// `chars` without leading and trailing whitespace.
pub fn trim_chars(chars: &Vec<char>) -> (out: Vec<char>)
    ensures
        out@ == trimmed(chars@),
{
    let mut start: usize = 0;
    assert(chars@.skip(0) =~= chars@);
    while start < chars.len() && char_is_whitespace(chars[start])
        invariant
            start <= chars@.len(),
            trim_start(chars@) == trim_start(chars@.skip(start as int)),
        decreases chars.len() - start,
    {
        proof {
            assert(chars@.skip(start as int).drop_first() =~= chars@.skip(start + 1));
        }
        start = start + 1;
    }
    let ghost front = chars@.skip(start as int);
    assert(trim_start(chars@) == front);
    let mut end: usize = chars.len();
    while end > start && char_is_whitespace(chars[end - 1])
        invariant
            start <= end <= chars@.len(),
            front == chars@.skip(start as int),
            trim_end(front) == trim_end(chars@.subrange(start as int, end as int)),
        decreases end,
    {
        proof {
            assert(chars@.subrange(start as int, end as int).drop_last() =~= chars@.subrange(
                start as int,
                end - 1,
            ));
        }
        end = end - 1;
    }
    let mut out: Vec<char> = Vec::new();
    let mut i: usize = start;
    while i < end
        invariant
            start <= i <= end <= chars@.len(),
            out@ == chars@.subrange(start as int, i as int),
        decreases end - i,
    {
        out.push(chars[i]);
        i = i + 1;
        proof {
            assert(out@ =~= chars@.subrange(start as int, i as int));
        }
    }
    proof {
        assert(front =~= chars@.subrange(start as int, chars@.len() as int));
    }
    out
}

/// `chars` with ASCII letters in lower case.
pub fn lower_chars(chars: &Vec<char>) -> (out: Vec<char>)
    ensures
        out@ == ascii_lower(chars@),
{
    let mut out: Vec<char> = Vec::new();
    let mut i: usize = 0;
    while i < chars.len()
        invariant
            i <= chars@.len(),
            out@ == ascii_lower(chars@.take(i as int)),
        decreases chars.len() - i,
    {
        let c = chars[i];
        let l = if 'A' <= c && c <= 'Z' {
            ((c as u8) + 32) as char
        } else {
            c
        };
        out.push(l);
        i = i + 1;
        proof {
            assert(out@ =~= ascii_lower(chars@.take(i as int)));
        }
    }
    proof {
        assert(chars@.take(i as int) =~= chars@);
    }
    out
}

/// `text` trimmed and lower-cased.
pub fn normalize(text: &str) -> (out: Vec<char>)
    ensures
        out@ == normalized(text@),
{
    lower_chars(&trim_chars(&str_chars(text)))
}

proof fn lemma_lower_char(c: char)
    ensures
        is_whitespace(lower_char(c)) == is_whitespace(c),
        lower_char(lower_char(c)) == lower_char(c),
{
    if 'A' <= c <= 'Z' {
        let l = lower_char(c);
        assert('a' <= l <= 'z');
    }
}

proof fn lemma_trim_start_lower(s: Seq<char>)
    ensures
        trim_start(ascii_lower(s)) == ascii_lower(trim_start(s)),
    decreases s.len(),
{
    if s.len() > 0 {
        lemma_lower_char(s[0]);
        assert(ascii_lower(s)[0] == lower_char(s[0]));
        if is_whitespace(s[0]) {
            assert(ascii_lower(s).drop_first() =~= ascii_lower(s.drop_first()));
            lemma_trim_start_lower(s.drop_first());
        }
    }
}

proof fn lemma_trim_end_lower(s: Seq<char>)
    ensures
        trim_end(ascii_lower(s)) == ascii_lower(trim_end(s)),
    decreases s.len(),
{
    if s.len() > 0 {
        lemma_lower_char(s.last());
        assert(ascii_lower(s).last() == lower_char(s.last()));
        if is_whitespace(s.last()) {
            assert(ascii_lower(s).drop_last() =~= ascii_lower(s.drop_last()));
            lemma_trim_end_lower(s.drop_last());
        }
    }
}

proof fn lemma_trim_start_shape(s: Seq<char>)
    ensures
        trim_start(s).len() == 0 || !is_whitespace(trim_start(s)[0]),
        trim_start(trim_start(s)) == trim_start(s),
    decreases s.len(),
{
    if s.len() > 0 && is_whitespace(s[0]) {
        lemma_trim_start_shape(s.drop_first());
    }
}

proof fn lemma_trim_end_shape(s: Seq<char>)
    ensures
        trim_end(trim_end(s)) == trim_end(s),
        s.len() > 0 && !is_whitespace(s[0]) ==> trim_end(s).len() > 0 && trim_end(s)[0] == s[0],
    decreases s.len(),
{
    if s.len() > 0 && is_whitespace(s.last()) {
        lemma_trim_end_shape(s.drop_last());
    }
}

/// Trimming twice trims no more than once.
pub proof fn lemma_trimmed_idempotent(s: Seq<char>)
    ensures
        trimmed(trimmed(s)) == trimmed(s),
{
    let front = trim_start(s);
    lemma_trim_start_shape(s);
    lemma_trim_end_shape(front);
    let t = trim_end(front);
    assert(trim_start(t) == t);
}

/// Normalizing a name twice gives what normalizing it once gives.
pub proof fn lemma_normalized_idempotent(s: Seq<char>)
    ensures
        normalized(normalized(s)) == normalized(s),
{
    let t = trimmed(s);
    lemma_trim_start_lower(t);
    lemma_trim_end_lower(trim_start(t));
    assert(trimmed(ascii_lower(t)) == ascii_lower(trimmed(t)));
    lemma_trimmed_idempotent(s);
    let once = ascii_lower(t);
    assert forall|i: int| 0 <= i < once.len() implies #[trigger] ascii_lower(once)[i] == once[i] by {
        lemma_lower_char(t[i]);
    }
    assert(ascii_lower(once) =~= once);
}

/// Whether `chars` spells exactly `text`.
pub fn chars_equal(chars: &Vec<char>, text: &str) -> (equal: bool)
    ensures
        equal == (chars@ == text@),
{
    let other = str_chars(text);
    if chars.len() != other.len() {
        return false;
    }
    let mut i: usize = 0;
    while i < chars.len()
        invariant
            i <= chars@.len(),
            chars@.len() == other@.len(),
            other@ == text@,
            chars@.take(i as int) == other@.take(i as int),
        decreases chars.len() - i,
    {
        if chars[i] != other[i] {
            proof {
                assert(chars@[i as int] != other@[i as int]);
            }
            return false;
        }
        i = i + 1;
        proof {
            assert(chars@.take(i as int) =~= other@.take(i as int));
        }
    }
    proof {
        assert(chars@ =~= chars@.take(i as int));
        assert(other@ =~= other@.take(i as int));
    }
    true
}

pub open spec fn all_digits(s: Seq<char>) -> bool {
    forall|i: int| 0 <= i < s.len() ==> '0' <= #[trigger] s[i] <= '9'
}

/// The number written by the decimal digits `s`.
pub open spec fn digits_value(s: Seq<char>) -> nat
    decreases s.len(),
{
    if s.len() == 0 {
        0
    } else {
        digits_value(s.drop_last()) * 10 + ((s.last() as u32) - 48) as nat
    }
}

/// How `u64` parsing reads text: an optional `+`, then one or more decimal
/// digits, with a value that fits.
pub open spec fn parse_u64_spec(s: Seq<char>) -> Option<u64> {
    let digits = if s.len() > 0 && s[0] == '+' {
        s.drop_first()
    } else {
        s
    };
    if digits.len() > 0 && all_digits(digits) && digits_value(digits) <= u64::MAX {
        Some(digits_value(digits) as u64)
    } else {
        None
    }
}

proof fn lemma_digits_value_grows(s: Seq<char>, i: int)
    requires
        all_digits(s),
        0 <= i <= s.len(),
    ensures
        digits_value(s.take(i)) <= digits_value(s),
    decreases s.len() - i,
{
    if i < s.len() {
        lemma_digits_value_grows(s, i + 1);
        assert(s.take(i + 1).drop_last() =~= s.take(i));
    } else {
        assert(s.take(i) =~= s);
    }
}

/// Parses `chars` as a `u64` the way `str::parse::<u64>` does.
pub fn parse_u64(chars: &Vec<char>) -> (value: Option<u64>)
    ensures
        value == parse_u64_spec(chars@),
{
    let mut start: usize = 0;
    if chars.len() > 0 && chars[0] == '+' {
        start = 1;
    }
    let ghost digits = chars@.skip(start as int);
    proof {
        if start == 1 {
            assert(digits =~= chars@.drop_first());
        } else {
            assert(digits =~= chars@);
        }
    }
    if start >= chars.len() {
        return None;
    }
    let mut value: u64 = 0;
    let mut i: usize = start;
    while i < chars.len()
        invariant
            start <= i <= chars@.len(),
            digits == chars@.skip(start as int),
            digits == (if chars@.len() > 0 && chars@[0] == '+' {
                chars@.drop_first()
            } else {
                chars@
            }),
            all_digits(digits.take(i - start)),
            value as nat == digits_value(digits.take(i - start)),
        decreases chars.len() - i,
    {
        let c = chars[i];
        proof {
            assert(digits.take(i + 1 - start).drop_last() =~= digits.take(i - start));
            assert(digits.take(i + 1 - start).last() == c);
        }
        if c < '0' || c > '9' {
            proof {
                assert(digits[i - start] == c);
                assert(!('0' <= digits[i - start] <= '9'));
                assert(!all_digits(digits));
                assert(parse_u64_spec(chars@) == None::<u64>);
            }
            return None;
        }
        let d = ((c as u32) - 48) as u64;
        if value > (u64::MAX - d) / 10 {
            proof {
                assert(digits_value(digits.take(i + 1 - start)) > u64::MAX) by (nonlinear_arith)
                    requires
                        value > (u64::MAX - d) / 10,
                        digits_value(digits.take(i + 1 - start)) == value * 10 + d,
                ;
                assert(all_digits(digits.take(i + 1 - start)));
                if all_digits(digits) {
                    lemma_digits_value_grows(digits, i + 1 - start);
                }
                assert(parse_u64_spec(chars@) == None::<u64>);
            }
            return None;
        }
        value = value * 10 + d;
        i = i + 1;
        proof {
            assert(all_digits(digits.take(i - start)));
        }
    }
    proof {
        assert(digits.take(i - start) =~= digits);
    }
    Some(value)
}

/// Appends `count` copies of `c`.
pub fn push_repeated(out: &mut Vec<char>, c: char, count: usize)
    ensures
        final(out)@ == old(out)@ + Seq::new(count as nat, |_i: int| c),
{
    let ghost start = out@;
    let mut i: usize = 0;
    while i < count
        invariant
            i <= count,
            out@ == start + Seq::new(i as nat, |_i: int| c),
        decreases count - i,
    {
        out.push(c);
        i = i + 1;
        proof {
            assert(out@ =~= start + Seq::new(i as nat, |_i: int| c));
        }
    }
}

/// `s` padded on the right with spaces to at least `width` characters.
pub open spec fn pad_right(s: Seq<char>, width: nat) -> Seq<char> {
    if s.len() >= width {
        s
    } else {
        s + spaces((width - s.len()) as nat)
    }
}

pub fn pad_right_chars(chars: Vec<char>, width: usize) -> (out: Vec<char>)
    ensures
        out@ == pad_right(chars@, width as nat),
{
    if chars.len() >= width {
        return chars;
    }
    let mut out = chars;
    let count = width - out.len();
    push_spaces(&mut out, count);
    out
}

/// The maximal runs of non-whitespace characters of `s`, continuing a word in
/// progress `current` after the words `done`.
pub open spec fn words_from(s: Seq<char>, current: Seq<char>, done: Seq<Seq<char>>) -> Seq<Seq<char>>
    decreases s.len(),
{
    if s.len() == 0 {
        if current.len() > 0 {
            done.push(current)
        } else {
            done
        }
    } else if is_whitespace(s[0]) {
        words_from(
            s.drop_first(),
            Seq::empty(),
            if current.len() > 0 {
                done.push(current)
            } else {
                done
            },
        )
    } else {
        words_from(s.drop_first(), current.push(s[0]), done)
    }
}

/// The whitespace-separated words of `s`.
pub open spec fn words(s: Seq<char>) -> Seq<Seq<char>> {
    words_from(s, Seq::empty(), Seq::empty())
}

pub fn split_words(chars: &Vec<char>) -> (out: Vec<Vec<char>>)
    ensures
        out@.map_values(|w: Vec<char>| w@) == words(chars@),
{
    let mut done: Vec<Vec<char>> = Vec::new();
    let mut current: Vec<char> = Vec::new();
    let mut i: usize = 0;
    assert(chars@.skip(0) =~= chars@);
    assert(done@.map_values(|w: Vec<char>| w@) =~= Seq::<Seq<char>>::empty());
    assert(current@ =~= Seq::<char>::empty());
    while i < chars.len()
        invariant
            i <= chars@.len(),
            words_from(chars@.skip(i as int), current@, done@.map_values(|w: Vec<char>| w@))
                == words(chars@),
        decreases chars.len() - i,
    {
        let c = chars[i];
        proof {
            assert(chars@.skip(i as int).drop_first() =~= chars@.skip(i + 1));
            assert(chars@.skip(i as int)[0] == c);
        }
        if char_is_whitespace(c) {
            if current.len() > 0 {
                let ghost before = done@.map_values(|w: Vec<char>| w@);
                let word = current;
                current = Vec::new();
                proof {
                    assert(done@.push(word).map_values(|w: Vec<char>| w@) =~= before.push(word@));
                }
                done.push(word);
            }
            proof {
                assert(current@ =~= Seq::<char>::empty());
            }
        } else {
            current.push(c);
        }
        i = i + 1;
    }
    if current.len() > 0 {
        let ghost before = done@.map_values(|w: Vec<char>| w@);
        proof {
            assert(done@.push(current).map_values(|w: Vec<char>| w@) =~= before.push(current@));
        }
        done.push(current);
    }
    proof {
        assert(chars@.skip(i as int).len() == 0);
    }
    done
}

/// `pattern` occurs in `s` at position `i`.
pub open spec fn occurs_at(s: Seq<char>, pattern: Seq<char>, i: int) -> bool {
    0 <= i && i + pattern.len() <= s.len() && s.subrange(i, i + pattern.len()) == pattern
}

/// The first position at or after `i` where `pattern` occurs in `s`.
pub open spec fn match_from(s: Seq<char>, pattern: Seq<char>, i: int) -> Option<nat>
    decreases s.len() + 1 - i,
{
    if i < 0 || i + pattern.len() > s.len() {
        None
    } else if occurs_at(s, pattern, i) {
        Some(i as nat)
    } else {
        match_from(s, pattern, i + 1)
    }
}

/// The first position where `pattern` occurs in `s`.
pub open spec fn first_match(s: Seq<char>, pattern: Seq<char>) -> Option<nat> {
    match_from(s, pattern, 0)
}

/// The search from `k` finds the first occurrence at or after `k`.
pub proof fn lemma_match_from_found(s: Seq<char>, pattern: Seq<char>, k: int, i: int)
    requires
        0 <= k <= i,
        occurs_at(s, pattern, i),
        forall|j: int| k <= j < i ==> !occurs_at(s, pattern, j),
    ensures
        match_from(s, pattern, k) == Some(i as nat),
    decreases i - k,
{
    if k < i {
        lemma_match_from_found(s, pattern, k + 1, i);
    }
}

/// The search from `k` finds nothing when nothing occurs.
pub proof fn lemma_match_from_none(s: Seq<char>, pattern: Seq<char>, k: int)
    requires
        0 <= k,
        forall|j: int| !occurs_at(s, pattern, j),
    ensures
        match_from(s, pattern, k) is None,
    decreases s.len() + 1 - k,
{
    if k + pattern.len() <= s.len() {
        lemma_match_from_none(s, pattern, k + 1);
    }
}

/// What the search from `k` returns is an occurrence at or after `k`.
pub proof fn lemma_match_from_occurs(s: Seq<char>, pattern: Seq<char>, k: int)
    ensures
        match_from(s, pattern, k) matches Some(i) ==> k <= i && occurs_at(s, pattern, i as int),
    decreases s.len() + 1 - k,
{
    if k >= 0 && k + pattern.len() <= s.len() && !occurs_at(s, pattern, k) {
        lemma_match_from_occurs(s, pattern, k + 1);
    }
}

/// The first position where `pattern` occurs in `chars`.
pub fn find_chars(chars: &Vec<char>, pattern: &Vec<char>) -> (found: Option<usize>)
    ensures
        found matches Some(i) ==> occurs_at(chars@, pattern@, i as int) && forall|j: int|
            0 <= j < i ==> !occurs_at(chars@, pattern@, j),
        found is None ==> forall|j: int| !occurs_at(chars@, pattern@, j),
        found matches Some(i) ==> first_match(chars@, pattern@) == Some(i as nat),
        found is None ==> first_match(chars@, pattern@) is None,
{
    if pattern.len() > chars.len() {
        proof {
            lemma_match_from_none(chars@, pattern@, 0);
        }
        return None;
    }
    if pattern.len() == 0 {
        proof {
            assert(chars@.subrange(0, 0) =~= pattern@);
            assert(occurs_at(chars@, pattern@, 0));
        }
        return Some(0);
    }
    let n = chars.len();
    let last = n - pattern.len();
    let mut i: usize = 0;
    while i <= last
        invariant
            n == chars@.len(),
            last == chars@.len() - pattern@.len(),
            pattern@.len() <= chars@.len(),
            pattern@.len() > 0,
            i <= last + 1,
            forall|j: int| 0 <= j < i ==> !occurs_at(chars@, pattern@, j),
        decreases last + 1 - i,
    {
        let mut k: usize = 0;
        let mut matched = true;
        while k < pattern.len()
            invariant
                i <= last,
                n == chars@.len(),
                last == chars@.len() - pattern@.len(),
                k <= pattern@.len(),
                matched ==> chars@.subrange(i as int, i + k) == pattern@.take(k as int),
                !matched ==> !occurs_at(chars@, pattern@, i as int),
                pattern@.len() <= chars@.len(),
            decreases pattern.len() - k,
        {
            if matched {
                if chars[i + k] != pattern[k] {
                    matched = false;
                    proof {
                        if occurs_at(chars@, pattern@, i as int) {
                            assert(chars@.subrange(i as int, i + pattern@.len())[k as int]
                                == chars@[i + k]);
                        }
                    }
                } else {
                    proof {
                        assert(chars@.subrange(i as int, i + k + 1) =~= pattern@.take(k + 1));
                    }
                }
            }
            k = k + 1;
        }
        if matched {
            proof {
                assert(pattern@.take(k as int) =~= pattern@);
                assert(occurs_at(chars@, pattern@, i as int));
                lemma_match_from_found(chars@, pattern@, 0, i as int);
            }
            return Some(i);
        }
        i = i + 1;
    }
    proof {
        assert forall|j: int| !occurs_at(chars@, pattern@, j) by {
            if 0 <= j < i {
            }
        }
        lemma_match_from_none(chars@, pattern@, 0);
    }
    None
}

} // verus!
