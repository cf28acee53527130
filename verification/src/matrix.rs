//! Matrix rain: falling columns of glyphs whose trails fade toward the top.

use vstd::prelude::*;

use crate::context::{ScreenAnimationContext, ScreenFrameProducer};
use crate::random::{lcg_step, scaled_index, seeded_index, size_seed, size_seed_spec};
use crate::screen::{ScreenCell, ScreenFrame};
use crate::terminal_control::{styled, styled_seq, TermColor};
use crate::text::{centered, concat};

verus! {

pub const MATRIX_STYLE: &'static str = "matrix";

/// The glyphs rain is drawn from.
pub const MATRIX_GLYPHS: &'static str = "0123456789ABCDEFGHIJKLMNOPQRSTUVWXYZ@#$%&*+=-:;.";

/// Salt of the starting generator state.
pub const MATRIX_SALT: u64 = 0x4D41_5452_4958;

/// Milliseconds between frames.
pub fn matrix_frame_delay() -> (millis: u64)
    ensures
        millis == 55,
{
    55
}

/// One falling column: `head` is the row of its brightest glyph, the trail
/// extends `length` rows upward, and it moves one row on frames where
/// `frame_index + phase` is a multiple of `speed`.
#[derive(Debug, Clone, Copy, PartialEq, Eq)]
pub struct MatrixColumn {
    pub head: i32,
    pub length: usize,
    pub speed: usize,
    pub phase: usize,
    pub glyph_seed: u64,
}

/// `value` clamped to `[low, high]` (with `low <= high`).
pub open spec fn clamp(value: nat, low: nat, high: nat) -> nat {
    if value < low {
        low
    } else if value > high {
        high
    } else {
        value
    }
}

/// One generator draw: the index below `length` and the new state.
pub open spec fn draw(seed: u64, length: nat) -> (nat, u64) {
    (scaled_index(lcg_step(seed) >> 33, length), lcg_step(seed))
}

pub open spec fn doubled_saturating(height: nat) -> nat {
    if height * 2 > usize::MAX {
        usize::MAX as nat
    } else {
        height * 2
    }
}

/// A fresh column drawn from `seed`, and the generator state after it. A warm
/// column starts anywhere on screen; a cold one starts just above the top.
pub open spec fn new_column_spec(seed: u64, height: nat, warm: bool) -> (MatrixColumn, u64) {
    let minimum_length = clamp(height, 1, 4);
    let maximum_length = clamp(doubled_saturating(height) / 3, minimum_length, 24);
    let (length_offset, s1) = draw(seed, (maximum_length - minimum_length + 1) as nat);
    let length = minimum_length + length_offset;
    let (speed_offset, s2) = draw(s1, 3);
    let speed = 1 + speed_offset;
    let (head_draw, s3) = draw(
        s2,
        if warm {
            if height >= 1 {
                height
            } else {
                1
            }
        } else {
            if height / 4 >= 1 {
                height / 4
            } else {
                1
            }
        },
    );
    let head: int = if warm {
        head_draw as int
    } else {
        -(head_draw as int) - 1
    };
    let (phase, s4) = draw(s3, speed);
    (
        MatrixColumn {
            head: head as i32,
            length: length as usize,
            speed: speed as usize,
            phase: phase as usize,
            glyph_seed: s4,
        },
        s4,
    )
}

/// `count` warm columns drawn in order from `seed`, and the state after them.
pub open spec fn warm_columns(seed: u64, height: nat, count: nat) -> (Seq<MatrixColumn>, u64)
    decreases count,
{
    if count == 0 {
        (Seq::empty(), seed)
    } else {
        let (columns, s) = warm_columns(seed, height, (count - 1) as nat);
        let (column, s2) = new_column_spec(s, height, true);
        (columns.push(column), s2)
    }
}

/// A column moved for frame `frame_index` (before any replacement).
pub open spec fn stepped_column(column: MatrixColumn, frame_index: usize) -> MatrixColumn {
    let t = vstd::wrapping::usize_specs::wrapping_add(frame_index, column.phase);
    let moves = if column.speed == 0 {
        t == 0
    } else {
        t % column.speed == 0
    };
    if moves {
        MatrixColumn { head: (column.head + 1) as i32, ..column }
    } else {
        column
    }
}

/// The first `count` columns after one step at `frame_index`, each column that
/// has left the screen replaced by a cold one, and the generator state after.
pub open spec fn advanced_columns(
    columns: Seq<MatrixColumn>,
    seed: u64,
    frame_index: usize,
    height: nat,
    count: nat,
) -> (Seq<MatrixColumn>, u64)
    decreases count,
{
    if count == 0 {
        (Seq::empty(), seed)
    } else {
        let (done, s) = advanced_columns(columns, seed, frame_index, height, (count - 1) as nat);
        let moved = stepped_column(columns[count - 1], frame_index);
        if moved.head - moved.length >= height {
            let (fresh, s2) = new_column_spec(s, height, false);
            (done.push(fresh), s2)
        } else {
            (done.push(moved), s)
        }
    }
}

/// A column that restarts does so above the top row.
proof fn lemma_cold_column_above(seed: u64, height: nat)
    requires
        height <= 0x7fff_ffe7,
    ensures
        new_column_spec(seed, height, false).0.head < 0,
{
    let minimum_length = clamp(height, 1, 4);
    let maximum_length = clamp(doubled_saturating(height) / 3, minimum_length, 24);
    let s1 = draw(seed, (maximum_length - minimum_length + 1) as nat).1;
    let speed_offset = draw(s1, 3).0;
    let s2 = draw(s1, 3).1;
    let bound: nat = if height / 4 >= 1 {
        height / 4
    } else {
        1
    };
    let x = lcg_step(s2);
    assert(x >> 33 < 0x8000_0000u64) by (bit_vector);
    crate::random::lemma_scaled_index(x >> 33, bound);
    let head_draw = draw(s2, bound).0;
    assert(head_draw < bound);
    let head: int = -(head_draw as int) - 1;
    assert(-0x8000_0000 <= head < 0);
}

/// The rain falls. After a step at `frame_index`, column `k`:
/// - when its turn comes (`frame_index + phase`, wrapping, is a multiple of its
///   speed) and it is still on screen, has moved down exactly one row and is
///   otherwise unchanged;
/// - when its turn has not come and it is on screen, is unchanged;
/// - when it has left the screen, has restarted above the top row.
pub proof fn lemma_rain_falls(
    columns: Seq<MatrixColumn>,
    seed: u64,
    frame_index: usize,
    height: nat,
    k: int,
)
    requires
        0 <= k < columns.len(),
        height <= 0x7fff_ffe7,
        column_fits(columns[k], height),
        columns[k].speed >= 1,
    ensures
        ({
            let c = columns[k];
            let after = advanced_columns(columns, seed, frame_index, height, columns.len()).0;
            let turn = vstd::wrapping::usize_specs::wrapping_add(frame_index, c.phase) % c.speed
                == 0;
            &&& after.len() == columns.len()
            &&& turn && c.head + 1 - c.length < height ==> after[k].head == c.head + 1
                && after[k].length == c.length && after[k].speed == c.speed && after[k].phase
                == c.phase && after[k].glyph_seed == c.glyph_seed
            &&& !turn && c.head - c.length < height ==> after[k] == c
            &&& (if turn {
                c.head + 1
            } else {
                c.head as int
            }) - c.length >= height ==> after[k].head < 0
        }),
{
    lemma_advanced_at(columns, seed, frame_index, height, columns.len(), k);
    let c = columns[k];
    if c.head + 1 <= i32::MAX {
        assert((c.head + 1) as i32 == c.head + 1);
    }
}

proof fn lemma_advanced_at(
    columns: Seq<MatrixColumn>,
    seed: u64,
    frame_index: usize,
    height: nat,
    count: nat,
    k: int,
)
    requires
        0 <= k < count <= columns.len(),
        height <= 0x7fff_ffe7,
    ensures
        ({
            let moved = stepped_column(columns[k], frame_index);
            let after = advanced_columns(columns, seed, frame_index, height, count).0;
            &&& after.len() == count
            &&& moved.head - moved.length < height ==> after[k] == moved
            &&& moved.head - moved.length >= height ==> after[k].head < 0
        }),
    decreases count,
{
    let (done, s) = advanced_columns(columns, seed, frame_index, height, (count - 1) as nat);
    if k < count - 1 {
        lemma_advanced_at(columns, seed, frame_index, height, (count - 1) as nat, k);
    } else {
        if count > 1 {
            lemma_advanced_at(columns, seed, frame_index, height, (count - 1) as nat, 0);
        } else {
            assert(done.len() == 0);
        }
        lemma_cold_column_above(s, height);
    }
}

/// How bright a trail glyph is, from 4 at the head down to 0.
pub open spec fn trail_tone_spec(age: nat, length: nat) -> nat {
    (if age <= length {
        length - age
    } else {
        0
    }) as nat * 4 / length
}

pub open spec fn glyph_hash(seed: u64, x: usize, y: usize, frame_index: usize) -> u64 {
    let h0 = seed ^ vstd::wrapping::u64_specs::wrapping_mul(x as u64, 0x9E37_79B9_7F4A_7C15)
        ^ vstd::wrapping::u64_specs::wrapping_mul(y as u64, 0xBF58_476D_1CE4_E5B9)
        ^ vstd::wrapping::u64_specs::wrapping_mul((frame_index / 2) as u64, 0x94D0_49BB_1331_11EB);
    let h1 = h0 ^ (h0 >> 30u64);
    let h2 = vstd::wrapping::u64_specs::wrapping_mul(h1, 0xBF58_476D_1CE4_E5B9);
    h2 ^ (h2 >> 27u64)
}

/// The glyph shown in column `x`, row `y`; it changes every second frame.
pub open spec fn matrix_glyph_spec(seed: u64, x: usize, y: usize, frame_index: usize) -> char {
    MATRIX_GLYPHS@[((glyph_hash(seed, x, y, frame_index) as usize) % 48) as int]
}

/// The palette for trail tones.
pub open spec fn tone_color(tone: usize) -> TermColor {
    if tone == 4 {
        TermColor::White
    } else if tone == 3 {
        TermColor::AnsiValue(120)
    } else if tone == 2 {
        TermColor::AnsiValue(46)
    } else if tone == 1 {
        TermColor::AnsiValue(28)
    } else {
        TermColor::AnsiValue(22)
    }
}

/// Falling glyph columns, one per drawn terminal column.
#[derive(Debug, PartialEq, Eq)]
pub struct MatrixAnimation {
    context: ScreenAnimationContext,
    frame_index: usize,
    seed: u64,
    columns: Vec<MatrixColumn>,
}

pub open spec fn column_fits(column: MatrixColumn, height: nat) -> bool {
    &&& 1 <= column.length <= 24
    &&& column.head < height + column.length
    &&& column.head >= -(height as int) - 1
}

impl MatrixAnimation {
    #[verifier::type_invariant]
    closed spec fn fits(self) -> bool {
        &&& self.columns@.len() == self.context.inner_width
        &&& self.context.inner_width * self.context.resolved_height <= usize::MAX
        &&& self.context.resolved_height <= 0x7fff_ffe7
        &&& forall|i: int|
            0 <= i < self.columns@.len() ==> column_fits(
                #[trigger] self.columns@[i],
                self.context.resolved_height as nat,
            )
    }

    pub closed spec fn context(self) -> ScreenAnimationContext {
        self.context
    }

    pub closed spec fn frame_index(self) -> usize {
        self.frame_index
    }

    pub closed spec fn seed(self) -> u64 {
        self.seed
    }

    pub closed spec fn columns(self) -> Seq<MatrixColumn> {
        self.columns@
    }

    /// The cell drawn in column `x`, row `y`: a glyph when `y` lies on that
    /// column's trail and on screen.
    pub open spec fn cell_at(self, x: int, y: int) -> Option<ScreenCell> {
        let height = self.context().resolved_height;
        if 0 <= x < self.columns().len() && 0 <= y < height {
            let column = self.columns()[x];
            let age = column.head - y;
            if 0 <= age < column.length {
                Some(
                    ScreenCell {
                        glyph: matrix_glyph_spec(
                            column.glyph_seed,
                            x as usize,
                            y as usize,
                            self.frame_index(),
                        ),
                        color_x: 0,
                        color_y: trail_tone_spec(age as nat, column.length as nat) as usize,
                        foreground: None,
                        background: None,
                    },
                )
            } else {
                None
            }
        } else {
            None
        }
    }

    /// Row `y` of the frame before centering.
    pub open spec fn row_seq(self, y: int) -> Seq<char> {
        concat(
            Seq::new(
                self.context().inner_width as nat,
                |x: int| matrix_cell_seq(self.cell_at(x, y)),
            ),
        )
    }
}

pub open spec fn matrix_cell_seq(cell: Option<ScreenCell>) -> Seq<char> {
    match cell {
        Some(c) => styled_seq(c.glyph, tone_color(c.color_y)),
        None => seq![' '],
    }
}

/// The rain draws from 48 glyphs, none of them an escape character.
pub proof fn lemma_matrix_glyphs()
    ensures
        MATRIX_GLYPHS@.len() == 48,
        forall|i: int| 0 <= i < 48 ==> (#[trigger] MATRIX_GLYPHS@[i]) != '\x1b',
{
    reveal_strlit("0123456789ABCDEFGHIJKLMNOPQRSTUVWXYZ@#$%&*+=-:;.");
}

/// A glyph is always one of the rain's glyphs, and it holds for two frames:
/// frames with the same half show the same glyph.
pub proof fn lemma_matrix_glyph_steady(seed: u64, x: usize, y: usize, frame: usize, other: usize)
    ensures
        MATRIX_GLYPHS@.contains(matrix_glyph_spec(seed, x, y, frame)),
        frame / 2 == other / 2 ==> matrix_glyph_spec(seed, x, y, frame) == matrix_glyph_spec(
            seed,
            x,
            y,
            other,
        ),
{
    lemma_matrix_glyphs();
    let index = ((glyph_hash(seed, x, y, frame) as usize) % 48) as int;
    assert(0 <= index < 48);
    assert(MATRIX_GLYPHS@[index] == matrix_glyph_spec(seed, x, y, frame));
}

proof fn lemma_sample_hashes()
    ensures
        glyph_hash(7, 3, 5, 0) == 17104014039925107848u64,
        glyph_hash(7, 3, 5, 2) == 9990917267611046852u64,
{
    let a = vstd::wrapping::u64_specs::wrapping_mul(3u64, 0x9E37_79B9_7F4A_7C15);
    let b = vstd::wrapping::u64_specs::wrapping_mul(5u64, 0xBF58_476D_1CE4_E5B9);
    let c0 = vstd::wrapping::u64_specs::wrapping_mul(0u64, 0x94D0_49BB_1331_11EB);
    let c1 = vstd::wrapping::u64_specs::wrapping_mul(1u64, 0x94D0_49BB_1331_11EB);
    assert(a == 15755400384260043839u64);
    assert(b == 13599011744654064797u64);
    assert(c0 == 0u64);
    assert(c1 == 10723151780598845931u64);
    assert(7u64 ^ a ^ b ^ c0 == 7358609172061423781u64) by (bit_vector)
        requires
            a == 15755400384260043839u64,
            b == 13599011744654064797u64,
            c0 == 0u64,
    ;
    assert(7u64 ^ a ^ b ^ c1 == 17496275331568769358u64) by (bit_vector)
        requires
            a == 15755400384260043839u64,
            b == 13599011744654064797u64,
            c1 == 10723151780598845931u64,
    ;
    assert(7358609172061423781u64 ^ (7358609172061423781u64 >> 30u64) == 7358609165756606610u64)
        by (bit_vector);
    assert(17496275331568769358u64 ^ (17496275331568769358u64 >> 30u64)
        == 17496275323902959509u64) by (bit_vector);
    assert(vstd::wrapping::u64_specs::wrapping_mul(7358609165756606610u64, 0xBF58_476D_1CE4_E5B9)
        == 17104014118671805314u64);
    assert(vstd::wrapping::u64_specs::wrapping_mul(17496275323902959509u64, 0xBF58_476D_1CE4_E5B9)
        == 9990917203930520493u64);
    assert(17104014118671805314u64 ^ (17104014118671805314u64 >> 27u64)
        == 17104014039925107848u64) by (bit_vector);
    assert(9990917203930520493u64 ^ (9990917203930520493u64 >> 27u64) == 9990917267611046852u64)
        by (bit_vector);
}

/// The rain moves: with seed 7, the glyph at column 3, row 5 changes by frame 2.
pub proof fn lemma_matrix_glyph_changes()
    ensures
        exists|frame: usize|
            1 <= frame < 32 && #[trigger] matrix_glyph_spec(7, 3, 5, frame) != matrix_glyph_spec(
                7,
                3,
                5,
                0,
            ),
{
    reveal_strlit("0123456789ABCDEFGHIJKLMNOPQRSTUVWXYZ@#$%&*+=-:;.");
    lemma_sample_hashes();
    assert(((17104014039925107848u64 as usize) % 48) == 8) by (bit_vector);
    assert(((9990917267611046852u64 as usize) % 48) == 20 || ((9990917267611046852u64 as usize)
        % 48) == 36) by (bit_vector);
    assert(matrix_glyph_spec(7, 3, 5, 2) != matrix_glyph_spec(7, 3, 5, 0));
}

/// How bright the glyph `age` rows behind the head of a trail of `length` is.
pub fn trail_tone(age: usize, length: usize) -> (tone: usize)
    requires
        length > 0,
        length <= usize::MAX / 4,
    ensures
        tone == trail_tone_spec(age as nat, length as nat),
{
    length.saturating_sub(age) * 4 / length
}

/// The glyph shown in column `x`, row `y` at `frame_index`.
pub fn matrix_glyph(seed: u64, x: usize, y: usize, frame_index: usize) -> (glyph: char)
    ensures
        glyph == matrix_glyph_spec(seed, x, y, frame_index),
{
    let mut hash = seed ^ (x as u64).wrapping_mul(0x9E37_79B9_7F4A_7C15) ^ (y as u64).wrapping_mul(
        0xBF58_476D_1CE4_E5B9,
    ) ^ ((frame_index / 2) as u64).wrapping_mul(0x94D0_49BB_1331_11EB);
    hash = hash ^ (hash >> 30);
    hash = hash.wrapping_mul(0xBF58_476D_1CE4_E5B9);
    hash = hash ^ (hash >> 27);
    proof {
        lemma_matrix_glyphs();
    }
    let index = (hash as usize) % 48;
    MATRIX_GLYPHS.get_char(index)
}

/// A trail glyph in its tone's color.
pub fn colorize_matrix_cell(cell: ScreenCell) -> (text: String)
    ensures
        text@ == styled_seq(cell.glyph, tone_color(cell.color_y)),
{
    let color = if cell.color_y == 4 {
        TermColor::White
    } else if cell.color_y == 3 {
        TermColor::AnsiValue(120)
    } else if cell.color_y == 2 {
        TermColor::AnsiValue(46)
    } else if cell.color_y == 1 {
        TermColor::AnsiValue(28)
    } else {
        TermColor::AnsiValue(22)
    };
    styled(cell.glyph, color)
}

/// A fresh column drawn from `seed` (advancing it).
fn new_column(seed: &mut u64, height: usize, warm: bool) -> (column: MatrixColumn)
    requires
        height <= 0x7fff_ffe7,
    ensures
        (column, *final(seed)) == new_column_spec(*old(seed), height as nat, warm),
        column_fits(column, height as nat),
        warm ==> column.head < height || column.head == 0,
        !warm ==> column.head < 0,
{
    let minimum_length = if height < 1 {
        1
    } else if height > 4 {
        4
    } else {
        height
    };
    let doubled = if height > usize::MAX / 2 {
        usize::MAX
    } else {
        height * 2
    };
    let third = doubled / 3;
    let maximum_length = if third < minimum_length {
        minimum_length
    } else if third > 24 {
        24
    } else {
        third
    };
    let length = minimum_length + seeded_index(seed, maximum_length - minimum_length + 1);
    let speed = 1 + seeded_index(seed, 3);
    let head: i32 = if warm {
        let bound = if height >= 1 {
            height
        } else {
            1
        };
        seeded_index(seed, bound) as i32
    } else {
        let bound = if height / 4 >= 1 {
            height / 4
        } else {
            1
        };
        -(seeded_index(seed, bound) as i32) - 1
    };
    let phase = seeded_index(seed, speed);
    MatrixColumn { head, length, speed, phase, glyph_seed: *seed }
}

impl MatrixAnimation {
    /// The cell in column `x`, row `y` once only the first `ages` glyphs of
    /// that column's trail are drawn.
    pub open spec fn cell_upto(self, x: int, y: int, ages: int) -> Option<ScreenCell> {
        let column = self.columns()[x];
        if column.head - y < ages {
            self.cell_at(x, y)
        } else {
            None
        }
    }

    /// Rain laid out for `context`, fully determined by the canvas size.
    pub fn new(context: ScreenAnimationContext) -> (animation: Self)
        requires
            context.inner_width * context.resolved_height <= usize::MAX,
            context.resolved_height <= 0x7fff_ffe7,
        ensures
            animation.context() == context,
            animation.frame_index() == 0,
            (animation.columns(), animation.seed()) == warm_columns(
                size_seed_spec(context.inner_width, context.resolved_height, MATRIX_SALT),
                context.resolved_height as nat,
                context.inner_width as nat,
            ),
            animation.columns().len() == context.inner_width,
    {
        let height = context.resolved_height;
        let mut seed = size_seed(context.inner_width, height, MATRIX_SALT);
        let ghost start = seed;
        let mut columns: Vec<MatrixColumn> = Vec::new();
        let mut i: usize = 0;
        while i < context.inner_width
            invariant
                i <= context.inner_width,
                height == context.resolved_height,
                height <= 0x7fff_ffe7,
                (columns@, seed) == warm_columns(start, height as nat, i as nat),
                columns@.len() == i,
                forall|k: int| 0 <= k < i ==> column_fits(#[trigger] columns@[k], height as nat),
            decreases context.inner_width - i,
        {
            let column = new_column(&mut seed, height, true);
            columns.push(column);
            i = i + 1;
        }
        MatrixAnimation { context, frame_index: 0, seed, columns }
    }

    /// The columns, left to right.
    pub fn column_list(&self) -> (columns: &Vec<MatrixColumn>)
        ensures
            columns@ == self.columns(),
    {
        &self.columns
    }

    /// Frames advanced so far, wrapping at `usize::MAX`.
    pub fn current_frame_index(&self) -> (index: usize)
        ensures
            index == self.frame_index(),
    {
        self.frame_index
    }

    /// Moves the frame counter, keeping everything else.
    pub fn set_frame_index(&mut self, index: usize)
        ensures
            final(self).frame_index() == index,
            final(self).context() == old(self).context(),
            final(self).columns() == old(self).columns(),
            final(self).seed() == old(self).seed(),
    {
        proof {
            use_type_invariant(&*self);
        }
        self.frame_index = index;
    }

    /// Changes the phase of column `column`, keeping everything else.
    pub fn set_column_phase(&mut self, column: usize, phase: usize)
        requires
            column < old(self).columns().len(),
        ensures
            final(self).columns() == old(self).columns().update(
                column as int,
                MatrixColumn { phase, ..old(self).columns()[column as int] },
            ),
            final(self).frame_index() == old(self).frame_index(),
            final(self).context() == old(self).context(),
            final(self).seed() == old(self).seed(),
    {
        proof {
            use_type_invariant(&*self);
        }
        let mut columns = self.columns.clone();
        let mut updated = columns[column];
        updated.phase = phase;
        columns.set(column, updated);
        proof {
            assert forall|i: int| 0 <= i < columns@.len() implies column_fits(
                #[trigger] columns@[i],
                self.context.resolved_height as nat,
            ) by {
                assert(columns@[i].length == self.columns@[i].length);
                assert(columns@[i].head == self.columns@[i].head);
            }
        }
        self.columns = columns;
    }
}

impl ScreenFrameProducer for MatrixAnimation {
    /// Each row of rain, centered in the resolved width.
    fn render_frame(&self) -> (lines: Vec<String>)
        ensures
            lines@.len() == self.context().resolved_height,
            forall|y: int|
                0 <= y < lines@.len() ==> (#[trigger] lines@[y])@ == centered(
                    self.row_seq(y),
                    self.context().resolved_width as nat,
                ),
    {
        proof {
            use_type_invariant(self);
        }
        let width = self.context.inner_width;
        let height = self.context.resolved_height;
        let mut frame = ScreenFrame::new(width, height);
        let mut x: usize = 0;
        while x < self.columns.len()
            invariant
                self.columns@.len() == width,
                width == self.context.inner_width,
                height == self.context.resolved_height,
                height <= 0x7fff_ffe7,
                forall|i: int|
                    0 <= i < self.columns@.len() ==> column_fits(
                        #[trigger] self.columns@[i],
                        height as nat,
                    ),
                x <= width,
                frame.wf(),
                frame.width() == width,
                frame.height() == height,
                forall|i: int, j: int|
                    #[trigger] frame.cell(i, j) == if i < x {
                        self.cell_at(i, j)
                    } else {
                        None
                    },
            decreases width - x,
        {
            let column = self.columns[x];
            let mut age: usize = 0;
            while age < column.length
                invariant
                    column == self.columns@[x as int],
                    self.columns@.len() == width,
                    width == self.context.inner_width,
                    height == self.context.resolved_height,
                    height <= 0x7fff_ffe7,
                    column_fits(column, height as nat),
                    x < width,
                    age <= column.length,
                    frame.wf(),
                    frame.width() == width,
                    frame.height() == height,
                    forall|i: int, j: int|
                        #[trigger] frame.cell(i, j) == if i < x {
                            self.cell_at(i, j)
                        } else if i == x {
                            self.cell_upto(i, j, age as int)
                        } else {
                            None
                        },
                decreases column.length - age,
            {
                let y = column.head - age as i32;
                if y >= 0 && y < height as i32 {
                    let glyph = matrix_glyph(column.glyph_seed, x, y as usize, self.frame_index);
                    let tone = trail_tone(age, column.length);
                    frame.set(x, y as usize, ScreenCell::indexed(glyph, 0, tone));
                }
                proof {
                    assert forall|i: int, j: int|
                        #[trigger] frame.cell(i, j) == if i < x {
                            self.cell_at(i, j)
                        } else if i == x {
                            self.cell_upto(i, j, age + 1)
                        } else {
                            None
                        } by {
                        if i == x && column.head - j == age {
                            if 0 <= j < height {
                                assert(j == y);
                            }
                        }
                    }
                }
                age = age + 1;
            }
            proof {
                assert forall|i: int, j: int|
                    #[trigger] frame.cell(i, j) == if i < x + 1 {
                        self.cell_at(i, j)
                    } else {
                        None
                    } by {
                    if i == x {
                        assert(self.cell_upto(i, j, age as int) == self.cell_at(i, j));
                    }
                }
            }
            x = x + 1;
        }
        let lines = frame.render_lines(self.context.resolved_width, colorize_matrix_cell);
        proof {
            let rw = self.context.resolved_width as nat;
            assert forall|y: int| 0 <= y < lines@.len() implies (#[trigger] lines@[y])@ == centered(
                self.row_seq(y),
                rw,
            ) by {
                assert(frame.row_rendered(colorize_matrix_cell, y, lines@[y]@, rw));
                let texts = choose|t: Seq<Seq<char>>|
                    frame.row_rendered_with(colorize_matrix_cell, y, lines@[y]@, rw, t);
                assert forall|k: int| 0 <= k < width implies crate::screen::frame_cell_seq(
                    frame.cell(k, y),
                    #[trigger] texts[k],
                ) == matrix_cell_seq(self.cell_at(k, y)) by {
                    assert(crate::screen::indexed_text_of(
                        colorize_matrix_cell,
                        frame.cell(k, y),
                        texts[k],
                    ));
                    match self.cell_at(k, y) {
                        Some(c) => {
                            let s = choose|s: String|
                                #[trigger] colorize_matrix_cell.ensures((c,), s) && s@ == texts[k];
                            assert(s@ == styled_seq(c.glyph, tone_color(c.color_y)));
                        },
                        None => {},
                    }
                }
                assert(Seq::new(
                    width as nat,
                    |k: int| crate::screen::frame_cell_seq(frame.cell(k, y), texts[k]),
                ) =~= Seq::new(width as nat, |k: int| matrix_cell_seq(self.cell_at(k, y))));
            }
        }
        lines
    }

    /// One frame forward: each column moves on its own cadence, and columns that
    /// have left the screen restart above the top.
    fn advance_frame(&mut self)
        ensures
            final(self).context() == old(self).context(),
            final(self).frame_index() == vstd::wrapping::usize_specs::wrapping_add(
                old(self).frame_index(),
                1,
            ),
            (final(self).columns(), final(self).seed()) == advanced_columns(
                old(self).columns(),
                old(self).seed(),
                final(self).frame_index(),
                old(self).context().resolved_height as nat,
                old(self).columns().len(),
            ),
            final(self).columns().len() == old(self).columns().len(),
    {
        proof {
            use_type_invariant(&*self);
        }
        self.frame_index = self.frame_index.wrapping_add(1);
        let frame_index = self.frame_index;
        let height = self.context.resolved_height;
        let mut seed = self.seed;
        let mut columns: Vec<MatrixColumn> = Vec::new();
        let mut i: usize = 0;
        while i < self.columns.len()
            invariant
                i <= self.columns@.len(),
                frame_index == self.frame_index,
                height == self.context.resolved_height,
                height <= 0x7fff_ffe7,
                self.columns@ == old(self).columns@,
                self.seed == old(self).seed,
                forall|k: int|
                    0 <= k < self.columns@.len() ==> column_fits(
                        #[trigger] self.columns@[k],
                        height as nat,
                    ),
                columns@.len() == i,
                (columns@, seed) == advanced_columns(
                    self.columns@,
                    self.seed,
                    frame_index,
                    height as nat,
                    i as nat,
                ),
                forall|k: int| 0 <= k < i ==> column_fits(#[trigger] columns@[k], height as nat),
            decreases self.columns@.len() - i,
        {
            let mut column = self.columns[i];
            assert(column_fits(column, height as nat));
            if frame_index.wrapping_add(column.phase).is_multiple_of(column.speed) {
                column.head = column.head + 1;
            }
            if column.head as i64 - column.length as i64 >= height as i64 {
                column = new_column(&mut seed, height, false);
            }
            columns.push(column);
            i = i + 1;
        }
        self.seed = seed;
        self.columns = columns;
    }

    /// Lays the rain out afresh for the new canvas.
    fn resize(&mut self, context: ScreenAnimationContext)
        ensures
            final(self).context() == context,
            final(self).frame_index() == 0,
            (final(self).columns(), final(self).seed()) == warm_columns(
                size_seed_spec(context.inner_width, context.resolved_height, MATRIX_SALT),
                context.resolved_height as nat,
                context.inner_width as nat,
            ),
    {
        *self = Self::new(context);
    }
}

/// A cell of the rain is never an escape character, so it takes one column.
pub proof fn lemma_matrix_cell_width(cell: Option<ScreenCell>, animation: MatrixAnimation, x: int, y: int)
    requires
        cell == animation.cell_at(x, y),
    ensures
        crate::text::visible_width(matrix_cell_seq(cell)) == 1,
        crate::text::closed(matrix_cell_seq(cell)),
{
    match cell {
        Some(c) => {
            lemma_matrix_glyphs();
            let column = animation.columns()[x];
            let h = glyph_hash(column.glyph_seed, x as usize, y as usize, animation.frame_index());
            assert((h as usize) % 48 < 48);
            crate::terminal_control::lemma_styled_width(c.glyph, tone_color(c.color_y));
        },
        None => crate::text::lemma_glyph_width(' '),
    }
}

/// Every line of rain is exactly as wide as the larger of the drawn width and
/// the requested width.
pub proof fn lemma_matrix_line_width(animation: MatrixAnimation, y: int, resolved_width: nat)
    ensures
        crate::text::visible_width(centered(animation.row_seq(y), resolved_width)) == if animation.context().inner_width >= resolved_width {
            animation.context().inner_width as nat
        } else {
            resolved_width
        },
{
    let pieces = Seq::new(
        animation.context().inner_width as nat,
        |x: int| matrix_cell_seq(animation.cell_at(x, y)),
    );
    assert forall|i: int| 0 <= i < pieces.len() implies crate::text::visible_width(#[trigger] pieces[i]) == 1
        && crate::text::closed(pieces[i]) by {
        lemma_matrix_cell_width(animation.cell_at(i, y), animation, i, y);
    }
    crate::text::lemma_concat_unit_width(pieces);
    crate::text::lemma_centered_width(animation.row_seq(y), resolved_width);
}

} // verus!
