//! Colors, cells, cell frames and half-block pixel fields.

use vstd::prelude::*;

use crate::terminal_control::{lemma_truecolor_width, truecolor_seq, write_truecolor};
use crate::text::{
    center_chars, centered, closed, concat, lemma_centered_width, lemma_concat_push,
    lemma_concat_unit_width, lemma_glyph_width, push_str, string_from_chars, visible_width,
};

verus! {

#[derive(Debug, Clone, Copy, PartialEq, Eq, Structural)]
pub struct RgbColor {
    pub red: u8,
    pub green: u8,
    pub blue: u8,
}

impl RgbColor {
    pub fn new(red: u8, green: u8, blue: u8) -> (color: Self)
        ensures
            color == (RgbColor { red, green, blue }),
    {
        Self { red, green, blue }
    }
}

/// One terminal cell: either palette-indexed (`color_x`, `color_y` pick a color
/// in the caller's palette) or drawn in 24-bit colors.
#[derive(Debug, Clone, Copy, PartialEq, Eq, Structural)]
pub struct ScreenCell {
    pub glyph: char,
    pub color_x: usize,
    pub color_y: usize,
    pub foreground: Option<RgbColor>,
    pub background: Option<RgbColor>,
}

impl ScreenCell {
    /// A cell whose color the caller's palette resolves from `color_x`, `color_y`.
    pub fn indexed(glyph: char, color_x: usize, color_y: usize) -> (cell: Self)
        ensures
            cell.glyph == glyph,
            cell.color_x == color_x,
            cell.color_y == color_y,
            cell.foreground == None::<RgbColor>,
            cell.background == None::<RgbColor>,
    {
        Self { glyph, color_x, color_y, foreground: None, background: None }
    }

    /// A cell in 24-bit colors.
    pub fn truecolor(glyph: char, foreground: RgbColor, background: Option<RgbColor>) -> (cell:
        Self)
        ensures
            cell.glyph == glyph,
            cell.color_x == 0,
            cell.color_y == 0,
            cell.foreground == Some(foreground),
            cell.background == background,
    {
        Self { glyph, color_x: 0, color_y: 0, foreground: Some(foreground), background }
    }
}

/// The text of one frame cell; `indexed` is what the palette gave an indexed cell.
pub open spec fn frame_cell_seq(cell: Option<ScreenCell>, indexed: Seq<char>) -> Seq<char> {
    match cell {
        Some(c) => match c.foreground {
            Some(f) => truecolor_seq(c.glyph, f, c.background),
            None => indexed,
        },
        None => seq![' '],
    }
}

/// A grid of optional cells.
#[derive(Debug, Clone, PartialEq, Eq)]
pub struct ScreenFrame {
    width: usize,
    height: usize,
    cells: Vec<Option<ScreenCell>>,
}

impl ScreenFrame {
    pub closed spec fn width(self) -> nat {
        self.width as nat
    }

    pub closed spec fn height(self) -> nat {
        self.height as nat
    }

    /// The cell at column `x`, row `y`; `None` when empty or outside.
    pub closed spec fn cell(self, x: int, y: int) -> Option<ScreenCell> {
        if 0 <= x < self.width && 0 <= y < self.height {
            self.cells@[y * self.width + x]
        } else {
            None
        }
    }

    pub closed spec fn wf(self) -> bool {
        &&& self.cells@.len() == self.width * self.height
        &&& self.width * self.height <= usize::MAX
    }

    /// The text of row `y` before centering, with `texts[x]` standing for an
    /// indexed cell in column `x`.
    pub open spec fn row_seq(self, y: int, texts: Seq<Seq<char>>) -> Seq<char> {
        concat(Seq::new(self.width(), |x: int| frame_cell_seq(self.cell(x, y), texts[x])))
    }

    /// An empty `width` by `height` frame.
    pub fn new(width: usize, height: usize) -> (frame: Self)
        requires
            width * height <= usize::MAX,
        ensures
            frame.wf(),
            frame.width() == width,
            frame.height() == height,
            forall|x: int, y: int| #[trigger] frame.cell(x, y) == None::<ScreenCell>,
    {
        let count = width * height;
        let mut cells: Vec<Option<ScreenCell>> = Vec::new();
        let mut i: usize = 0;
        while i < count
            invariant
                i <= count,
                cells@.len() == i,
                forall|j: int| 0 <= j < i ==> cells@[j] == None::<ScreenCell>,
            decreases count - i,
        {
            cells.push(None);
            i = i + 1;
        }
        let frame = Self { width, height, cells };
        proof {
            assert forall|x: int, y: int| #[trigger] frame.cell(x, y) == None::<ScreenCell> by {
                if 0 <= x < width && 0 <= y < height {
                    vstd::arithmetic::mul::lemma_mul_is_distributive_add_other_way(
                        width as int,
                        y,
                        1,
                    );
                    assert(y * width + x < (y + 1) * width);
                    vstd::arithmetic::mul::lemma_mul_inequality(y + 1, height as int, width as int);
                    vstd::arithmetic::mul::lemma_mul_is_commutative(height as int, width as int);
                    assert(0 <= y * width) by (nonlinear_arith)
                        requires
                            0 <= y,
                            0 <= width,
                    ;
                }
            }
        }
        frame
    }

    /// Places `cell` at column `x`, row `y`; positions outside the frame are ignored.
    pub fn set(&mut self, x: usize, y: usize, cell: ScreenCell)
        requires
            old(self).wf(),
        ensures
            final(self).wf(),
            final(self).width() == old(self).width(),
            final(self).height() == old(self).height(),
            forall|i: int, j: int|
                #[trigger] final(self).cell(i, j) == if i == x && j == y && x < old(self).width()
                    && y < old(self).height() {
                    Some(cell)
                } else {
                    old(self).cell(i, j)
                },
    {
        if x >= self.width || y >= self.height {
            return ;
        }
        proof {
            lemma_grid_index(x as int, y as int, self.width as int, self.height as int);
        }
        proof {
            assert(y * self.width <= y * self.width + x);
        }
        let index = y * self.width + x;
        self.cells.set(index, Some(cell));
        proof {
            assert forall|i: int, j: int|
                #[trigger] self.cell(i, j) == if i == x && j == y {
                    Some(cell)
                } else {
                    old(self).cell(i, j)
                } by {
                if 0 <= i < self.width && 0 <= j < self.height {
                    lemma_grid_index(i, j, self.width as int, self.height as int);
                    if j * self.width + i == y * self.width + x {
                        lemma_grid_index_unique(i, j, x as int, y as int, self.width as int);
                    }
                }
            }
        }
    }

    /// Row `y` rendered as `line`, with `texts[x]` what `render_cell` gave for
    /// the indexed cell in column `x`.
    pub open spec fn row_rendered_with<F: Fn(ScreenCell) -> String>(
        self,
        render_cell: F,
        y: int,
        line: Seq<char>,
        resolved_width: nat,
        texts: Seq<Seq<char>>,
    ) -> bool {
        &&& texts.len() == self.width()
        &&& forall|x: int|
            0 <= x < self.width() ==> #[trigger] indexed_text_of(render_cell, self.cell(x, y), texts[x])
        &&& line == centered(self.row_seq(y, texts), resolved_width)
    }

    /// Row `y` rendered as `line` for some outputs of `render_cell`.
    pub open spec fn row_rendered<F: Fn(ScreenCell) -> String>(
        self,
        render_cell: F,
        y: int,
        line: Seq<char>,
        resolved_width: nat,
    ) -> bool {
        exists|texts: Seq<Seq<char>>|
            #[trigger] self.row_rendered_with(render_cell, y, line, resolved_width, texts)
    }

    /// Renders every row left to right, centered in `resolved_width` columns:
    /// 24-bit cells through their colors, indexed cells through `render_cell`,
    /// empty cells as a space.
    pub fn render_lines<F: Fn(ScreenCell) -> String>(&self, resolved_width: usize, render_cell: F) -> (lines: Vec<String>)
        requires
            self.wf(),
            forall|c: ScreenCell| render_cell.requires((c,)),
        ensures
            lines@.len() == self.height(),
            forall|y: int|
                0 <= y < self.height() ==> self.row_rendered(
                    render_cell,
                    y,
                    (#[trigger] lines@[y])@,
                    resolved_width as nat,
                ),
    {
        let mut lines: Vec<String> = Vec::new();
        let mut y: usize = 0;
        while y < self.height
            invariant
                self.wf(),
                forall|c: ScreenCell| render_cell.requires((c,)),
                y <= self.height,
                lines@.len() == y,
                forall|r: int|
                    0 <= r < y ==> self.row_rendered(
                        render_cell,
                        r,
                        (#[trigger] lines@[r])@,
                        resolved_width as nat,
                    ),
            decreases self.height - y,
        {
            let mut line: Vec<char> = Vec::new();
            let ghost mut texts: Seq<Seq<char>> = Seq::empty();
            let mut x: usize = 0;
            while x < self.width
                invariant
                    self.wf(),
                    forall|c: ScreenCell| render_cell.requires((c,)),
                    y < self.height,
                    x <= self.width,
                    texts.len() == x,
                    forall|i: int|
                        0 <= i < x ==> #[trigger] indexed_text_of(
                            render_cell,
                            self.cell(i, y as int),
                            texts[i],
                        ),
                    line@ == concat(
                        Seq::new(
                            x as nat,
                            |i: int| frame_cell_seq(self.cell(i, y as int), texts[i]),
                        ),
                    ),
                decreases self.width - x,
            {
                proof {
                    lemma_grid_index(x as int, y as int, self.width as int, self.height as int);
                    assert(y * self.width <= y * self.width + x);
                }
                let ghost before = line@;
                let ghost old_texts = texts;
                let slot = self.cells[y * self.width + x];
                assert(slot == self.cell(x as int, y as int));
                match slot {
                    Some(cell) => match cell.foreground {
                        Some(foreground) => {
                            write_truecolor(&mut line, cell.glyph, foreground, cell.background);
                            proof {
                                texts = texts.push(Seq::empty());
                            }
                        },
                        None => {
                            let rendered = render_cell(cell);
                            push_str(&mut line, rendered.as_str());
                            proof {
                                texts = texts.push(rendered@);
                            }
                        },
                    },
                    None => {
                        line.push(' ');
                        proof {
                            texts = texts.push(Seq::empty());
                        }
                    },
                }
                proof {
                    let f = |i: int| frame_cell_seq(self.cell(i, y as int), texts[i]);
                    let g = |i: int| frame_cell_seq(self.cell(i, y as int), old_texts[i]);
                    assert(Seq::new(x as nat, g) =~= Seq::new(x as nat, f));
                    assert(Seq::new((x + 1) as nat, f) =~= Seq::new(x as nat, f).push(f(x as int)));
                    lemma_concat_push(Seq::new(x as nat, f), f(x as int));
                    assert(line@ =~= before + f(x as int));
                    assert forall|i: int| 0 <= i < x + 1 implies #[trigger] indexed_text_of(
                        render_cell,
                        self.cell(i, y as int),
                        texts[i],
                    ) by {
                        if i < x {
                            assert(texts[i] == old_texts[i]);
                        }
                    }
                }
                x = x + 1;
            }
            let centered_line = string_from_chars(center_chars(line, resolved_width));
            let ghost old_lines = lines@;
            lines.push(centered_line);
            proof {
                assert(Seq::new(
                    x as nat,
                    |i: int| frame_cell_seq(self.cell(i, y as int), texts[i]),
                ) =~= Seq::new(
                    self.width(),
                    |i: int| frame_cell_seq(self.cell(i, y as int), texts[i]),
                ));
                assert(self.row_rendered_with(
                    render_cell,
                    y as int,
                    lines@[y as int]@,
                    resolved_width as nat,
                    texts,
                ));
                assert forall|r: int|
                    0 <= r < y + 1 implies self.row_rendered(
                    render_cell,
                    r,
                    (#[trigger] lines@[r])@,
                    resolved_width as nat,
                ) by {
                    if r < y {
                        assert(lines@[r] == old_lines[r]);
                    }
                }
            }
            y = y + 1;
        }
        lines
    }
}

/// Two vertically stacked pixels sharing one terminal cell.
#[derive(Debug, Clone, Copy, PartialEq, Eq, Structural)]
struct HalfCell {
    upper: Option<RgbColor>,
    lower: Option<RgbColor>,
}

/// The text of one half-block cell: an upper half block when the upper pixel is
/// set (the lower pixel, if any, as its background), a lower half block when
/// only the lower pixel is set, a space when neither is.
pub open spec fn half_cell_seq(upper: Option<RgbColor>, lower: Option<RgbColor>) -> Seq<char> {
    match upper {
        Some(u) => truecolor_seq('\u{2580}', u, lower),
        None => match lower {
            Some(l) => truecolor_seq('\u{2584}', l, None),
            None => seq![' '],
        },
    }
}

/// A reusable RGB pixel field packed into terminal half-block cells.
#[derive(Debug, Clone, PartialEq, Eq)]
pub struct HalfBlockField {
    width: usize,
    pixel_height: usize,
    cells: Vec<HalfCell>,
}

/// Terminal rows needed for `pixel_height` pixel rows.
pub open spec fn half_rows(pixel_height: nat) -> nat {
    (pixel_height + 1) / 2
}

impl HalfBlockField {
    pub closed spec fn width(self) -> nat {
        self.width as nat
    }

    pub closed spec fn pixel_height(self) -> nat {
        self.pixel_height as nat
    }

    /// The pixel at column `x`, pixel row `y`; `None` when unset or outside.
    pub closed spec fn pixel(self, x: int, y: int) -> Option<RgbColor> {
        if 0 <= x < self.width && 0 <= y < self.pixel_height {
            let cell = self.cells@[(y / 2) * self.width + x];
            if y % 2 == 0 {
                cell.upper
            } else {
                cell.lower
            }
        } else {
            None
        }
    }

    pub closed spec fn wf(self) -> bool {
        let rows = half_rows(self.pixel_height as nat);
        &&& self.cells@.len() == self.width * rows
        &&& self.width * rows <= usize::MAX
        &&& self.pixel_height % 2 == 1 ==> forall|x: int|
            0 <= x < self.width ==> (#[trigger] self.cells@[(rows - 1) * self.width + x]).lower
                is None
    }

    /// The text of terminal row `r` before centering.
    pub open spec fn row_seq(self, r: int) -> Seq<char> {
        concat(
            Seq::new(
                self.width(),
                |x: int| half_cell_seq(self.pixel(x, 2 * r), self.pixel(x, 2 * r + 1)),
            ),
        )
    }

    fn blank_cells(count: usize) -> (cells: Vec<HalfCell>)
        ensures
            cells@.len() == count,
            forall|i: int| 0 <= i < count ==> #[trigger] cells@[i] == (HalfCell { upper: None, lower: None }),
    {
        let mut cells: Vec<HalfCell> = Vec::new();
        let mut i: usize = 0;
        while i < count
            invariant
                i <= count,
                cells@.len() == i,
                forall|j: int| 0 <= j < i ==> #[trigger] cells@[j] == (HalfCell { upper: None, lower: None }),
            decreases count - i,
        {
            cells.push(HalfCell { upper: None, lower: None });
            i = i + 1;
        }
        cells
    }

    proof fn lemma_blank(self)
        requires
            self.cells@.len() == self.width * half_rows(self.pixel_height as nat),
            self.width * half_rows(self.pixel_height as nat) <= usize::MAX,
            forall|i: int| 0 <= i < self.cells@.len() ==> #[trigger] self.cells@[i] == (HalfCell { upper: None, lower: None }),
        ensures
            self.wf(),
            forall|x: int, y: int| #[trigger] self.pixel(x, y) == None::<RgbColor>,
    {
        let rows = half_rows(self.pixel_height as nat);
        assert forall|x: int, y: int| #[trigger] self.pixel(x, y) == None::<RgbColor> by {
            if 0 <= x < self.width && 0 <= y < self.pixel_height {
                lemma_grid_index(x, y / 2, self.width as int, rows as int);
            }
        }
        if self.pixel_height % 2 == 1 {
            assert forall|x: int| 0 <= x < self.width implies (#[trigger] self.cells@[(rows - 1) * self.width + x]).lower is None by {
                lemma_grid_index(x, rows - 1, self.width as int, rows as int);
            }
        }
    }

    /// Nothing lies outside the field.
    pub proof fn lemma_outside(self)
        ensures
            forall|x: int, y: int|
                !(0 <= x < self.width() && 0 <= y < self.pixel_height()) ==> #[trigger] self.pixel(
                    x,
                    y,
                ) == None::<RgbColor>,
    {
    }

    /// Columns of pixels.
    pub fn columns(&self) -> (width: usize)
        ensures
            width == self.width(),
    {
        self.width
    }

    /// Rows of pixels (two per terminal row).
    pub fn pixel_rows(&self) -> (height: usize)
        ensures
            height == self.pixel_height(),
    {
        self.pixel_height
    }

    /// An empty field of `width` columns and `pixel_height` pixel rows.
    pub fn new(width: usize, pixel_height: usize) -> (field: Self)
        requires
            width * half_rows(pixel_height as nat) <= usize::MAX,
        ensures
            field.wf(),
            field.width() == width,
            field.pixel_height() == pixel_height,
            forall|x: int, y: int| #[trigger] field.pixel(x, y) == None::<RgbColor>,
    {
        let rows = pixel_height / 2 + pixel_height % 2;
        assert(rows == half_rows(pixel_height as nat));
        let field = Self { width, pixel_height, cells: Self::blank_cells(width * rows) };
        proof {
            field.lemma_blank();
        }
        field
    }

    /// Sets a pixel, or removes it when `color` is `None`. Out-of-bounds writes are ignored.
    pub fn set(&mut self, x: usize, y: usize, color: Option<RgbColor>)
        requires
            old(self).wf(),
        ensures
            final(self).wf(),
            final(self).width() == old(self).width(),
            final(self).pixel_height() == old(self).pixel_height(),
            forall|i: int, j: int|
                #[trigger] final(self).pixel(i, j) == if i == x && j == y && x < old(self).width()
                    && y < old(self).pixel_height() {
                    color
                } else {
                    old(self).pixel(i, j)
                },
    {
        if x >= self.width || y >= self.pixel_height {
            return ;
        }
        let ghost rows = half_rows(self.pixel_height as nat);
        proof {
            lemma_grid_index(x as int, (y / 2) as int, self.width as int, rows as int);
            assert((y / 2) * self.width <= (y / 2) * self.width + x);
        }
        let index = (y / 2) * self.width + x;
        let mut cell = self.cells[index];
        if y % 2 == 0 {
            cell.upper = color;
        } else {
            cell.lower = color;
        }
        self.cells.set(index, cell);
        proof {
            assert forall|i: int, j: int|
                #[trigger] self.pixel(i, j) == if i == x && j == y {
                    color
                } else {
                    old(self).pixel(i, j)
                } by {
                if 0 <= i < self.width && 0 <= j < self.pixel_height {
                    lemma_grid_index(i, j / 2, self.width as int, rows as int);
                    if (j / 2) * self.width + i == (y / 2) * self.width + x {
                        lemma_grid_index_unique(i, j / 2, x as int, (y / 2) as int, self.width as int);
                    }
                }
            }
            if self.pixel_height % 2 == 1 {
                assert forall|i: int| 0 <= i < self.width implies (#[trigger] self.cells@[(rows - 1) * self.width + i]).lower is None by {
                    lemma_grid_index(i, rows - 1, self.width as int, rows as int);
                    if (rows - 1) * self.width + i == (y / 2) * self.width + x {
                        lemma_grid_index_unique(i, rows - 1, x as int, (y / 2) as int, self.width as int);
                        assert(y % 2 == 0);
                    }
                }
            }
        }
    }

    /// Removes every pixel.
    pub fn clear(&mut self)
        requires
            old(self).wf(),
        ensures
            final(self).wf(),
            final(self).width() == old(self).width(),
            final(self).pixel_height() == old(self).pixel_height(),
            forall|x: int, y: int| #[trigger] final(self).pixel(x, y) == None::<RgbColor>,
    {
        let mut i: usize = 0;
        while i < self.cells.len()
            invariant
                i <= self.cells@.len(),
                self.cells@.len() == old(self).cells@.len(),
                self.width == old(self).width,
                self.pixel_height == old(self).pixel_height,
                old(self).wf(),
                forall|j: int| 0 <= j < i ==> #[trigger] self.cells@[j] == (HalfCell { upper: None, lower: None }),
            decreases self.cells@.len() - i,
        {
            self.cells.set(i, HalfCell { upper: None, lower: None });
            i = i + 1;
        }
        proof {
            self.lemma_blank();
        }
    }

    /// Resizes the field and clears all samples, retaining existing allocation when possible.
    pub fn resize(&mut self, width: usize, pixel_height: usize)
        requires
            width * half_rows(pixel_height as nat) <= usize::MAX,
        ensures
            final(self).wf(),
            final(self).width() == width,
            final(self).pixel_height() == pixel_height,
            forall|x: int, y: int| #[trigger] final(self).pixel(x, y) == None::<RgbColor>,
    {
        let rows = pixel_height / 2 + pixel_height % 2;
        assert(rows == half_rows(pixel_height as nat));
        self.width = width;
        self.pixel_height = pixel_height;
        self.cells.clear();
        let count = width * rows;
        let mut i: usize = 0;
        while i < count
            invariant
                i <= count,
                count == width * rows,
                self.width == width,
                self.pixel_height == pixel_height,
                self.cells@.len() == i,
                forall|j: int| 0 <= j < i ==> #[trigger] self.cells@[j] == (HalfCell { upper: None, lower: None }),
            decreases count - i,
        {
            self.cells.push(HalfCell { upper: None, lower: None });
            i = i + 1;
        }
        proof {
            self.lemma_blank();
        }
    }

    /// Renders each terminal row (two pixel rows) centered in `resolved_width`
    /// columns; a field without columns or rows renders nothing.
    pub fn render_lines(&self, resolved_width: usize) -> (lines: Vec<String>)
        requires
            self.wf(),
        ensures
            self.width() == 0 || self.pixel_height() == 0 ==> lines@.len() == 0,
            self.width() > 0 && self.pixel_height() > 0 ==> lines@.len() == half_rows(
                self.pixel_height(),
            ),
            self.width() > 0 && self.pixel_height() > 0 ==> forall|r: int|
                0 <= r < lines@.len() ==> (#[trigger] lines@[r])@ == centered(
                    self.row_seq(r),
                    resolved_width as nat,
                ),
    {
        let mut lines: Vec<String> = Vec::new();
        if self.width == 0 || self.pixel_height == 0 {
            return lines;
        }
        let rows = self.pixel_height / 2 + self.pixel_height % 2;
        let mut r: usize = 0;
        while r < rows
            invariant
                self.wf(),
                rows == half_rows(self.pixel_height as nat),
                r <= rows,
                lines@.len() == r,
                forall|k: int|
                    0 <= k < r ==> (#[trigger] lines@[k])@ == centered(
                        self.row_seq(k),
                        resolved_width as nat,
                    ),
            decreases rows - r,
        {
            let mut line: Vec<char> = Vec::new();
            let mut x: usize = 0;
            let ghost f = |i: int| half_cell_seq(self.pixel(i, 2 * r), self.pixel(i, 2 * r + 1));
            while x < self.width
                invariant
                    self.wf(),
                    rows == half_rows(self.pixel_height as nat),
                    r < rows,
                    x <= self.width,
                    f == (|i: int| half_cell_seq(self.pixel(i, 2 * r), self.pixel(i, 2 * r + 1))),
                    line@ == concat(Seq::new(x as nat, f)),
                decreases self.width - x,
            {
                proof {
                    lemma_grid_index(x as int, r as int, self.width as int, rows as int);
                    assert(r * self.width <= r * self.width + x);
                    assert((2 * r) / 2 == r);
                    assert((2 * r + 1) / 2 == r);
                    if 2 * r + 1 >= self.pixel_height {
                        assert(r == rows - 1);
                        assert(self.pixel_height % 2 == 1);
                        assert(self.cells@[(rows - 1) * self.width + x].lower is None);
                    }
                }
                let ghost before = line@;
                let cell = self.cells[r * self.width + x];
                match cell.upper {
                    Some(upper) => write_truecolor(&mut line, '\u{2580}', upper, cell.lower),
                    None => match cell.lower {
                        Some(lower) => write_truecolor(&mut line, '\u{2584}', lower, None),
                        None => line.push(' '),
                    },
                }
                proof {
                    assert(line@ =~= before + f(x as int));
                    assert(Seq::new((x + 1) as nat, f) =~= Seq::new(x as nat, f).push(f(x as int)));
                    lemma_concat_push(Seq::new(x as nat, f), f(x as int));
                }
                x = x + 1;
            }
            lines.push(string_from_chars(center_chars(line, resolved_width)));
            r = r + 1;
        }
        lines
    }
}

/// A half-block cell always occupies one column.
pub proof fn lemma_half_cell_width(upper: Option<RgbColor>, lower: Option<RgbColor>)
    ensures
        visible_width(half_cell_seq(upper, lower)) == 1,
        closed(half_cell_seq(upper, lower)),
{
    match upper {
        Some(u) => lemma_truecolor_width('\u{2580}', u, lower),
        None => match lower {
            Some(l) => lemma_truecolor_width('\u{2584}', l, None),
            None => lemma_glyph_width(' '),
        },
    }
}

/// Every line a half-block field renders is exactly as wide as the larger of
/// the field's width and the requested width.
pub proof fn lemma_half_block_line_width(field: HalfBlockField, r: int, resolved_width: nat)
    ensures
        visible_width(centered(field.row_seq(r), resolved_width)) == if field.width()
            >= resolved_width {
            field.width()
        } else {
            resolved_width
        },
{
    let pieces = Seq::new(
        field.width(),
        |x: int| half_cell_seq(field.pixel(x, 2 * r), field.pixel(x, 2 * r + 1)),
    );
    assert forall|i: int| 0 <= i < pieces.len() implies visible_width(#[trigger] pieces[i]) == 1
        && closed(pieces[i]) by {
        lemma_half_cell_width(field.pixel(i, 2 * r), field.pixel(i, 2 * r + 1));
    }
    lemma_concat_unit_width(pieces);
    lemma_centered_width(field.row_seq(r), resolved_width);
}

/// `text` is what `render_cell` may give for `cell` when it is indexed, and is
/// unused otherwise.
pub open spec fn indexed_text_of<F: Fn(ScreenCell) -> String>(
    render_cell: F,
    cell: Option<ScreenCell>,
    text: Seq<char>,
) -> bool {
    match cell {
        Some(c) => c.foreground is None ==> exists|s: String|
            #[trigger] render_cell.ensures((c,), s) && s@ == text,
        None => true,
    }
}

/// Row-major index arithmetic for a `width` by `height` grid.
pub proof fn lemma_grid_index(x: int, y: int, width: int, height: int)
    requires
        0 <= x < width,
        0 <= y < height,
    ensures
        0 <= y * width + x < width * height,
        y * width + x <= usize::MAX || width * height > usize::MAX,
{
    assert(y * width + x < (y + 1) * width) by (nonlinear_arith)
        requires
            0 <= x < width,
    ;
    assert((y + 1) * width <= height * width) by (nonlinear_arith)
        requires
            y + 1 <= height,
            0 <= width,
    ;
    assert(0 <= y * width) by (nonlinear_arith)
        requires
            0 <= y,
            0 <= width,
    ;
    assert(height * width == width * height) by (nonlinear_arith);
}

/// Distinct cells of a grid have distinct row-major indices.
pub proof fn lemma_grid_index_unique(x1: int, y1: int, x2: int, y2: int, width: int)
    requires
        0 <= x1 < width,
        0 <= x2 < width,
        0 <= y1,
        0 <= y2,
        y1 * width + x1 == y2 * width + x2,
    ensures
        x1 == x2,
        y1 == y2,
{
    if y1 < y2 {
        assert(y1 * width + x1 < y2 * width) by (nonlinear_arith)
            requires
                y1 < y2,
                0 <= x1 < width,
        ;
    } else if y2 < y1 {
        assert(y2 * width + x2 < y1 * width) by (nonlinear_arith)
            requires
                y2 < y1,
                0 <= x2 < width,
        ;
    }
}

} // verus!
