//! Timing and pixel placement for the aquarium.

use vstd::prelude::*;

use crate::screen::{HalfBlockField, RgbColor};

verus! {

pub const AQUARIUM_STYLE: &'static str = "aquarium";

/// Milliseconds between aquarium frames.
pub fn aquarium_frame_delay() -> (millis: u64)
    ensures
        millis == 40,
{
    40
}

/// Paints one pixel at a signed position; pixels off the field are dropped, so
/// sprites clip at every edge.
pub fn pixel(field: &mut HalfBlockField, x: i32, y: i32, color: [u8; 3])
    requires
        old(field).wf(),
    ensures
        final(field).wf(),
        final(field).width() == old(field).width(),
        final(field).pixel_height() == old(field).pixel_height(),
        forall|i: int, j: int|
            #[trigger] final(field).pixel(i, j) == if i == x && j == y && 0 <= x < old(
                field,
            ).width() && 0 <= y < old(field).pixel_height() {
                Some(RgbColor { red: color[0], green: color[1], blue: color[2] })
            } else {
                old(field).pixel(i, j)
            },
{
    if x < 0 || y < 0 {
        return ;
    }
    let rgb = RgbColor::new(color[0], color[1], color[2]);
    field.set(x as usize, y as usize, Some(rgb));
}


/// The kinds of fish, each with its own pixel art.
#[derive(Debug, Clone, Copy, PartialEq, Eq, Structural)]
pub enum FishKind {
    Minnow,
    Reef,
    Angel,
}

/// A fish's pixel art, facing right, one row per pixel row: `b` body, `h`
/// highlight, `s` stripe, `f` fin, `e` eye; spaces are transparent.
pub open spec fn fish_art(kind: FishKind) -> Seq<Seq<char>> {
    match kind {
        FishKind::Minnow => seq![
            seq![' ', ' ', 'h', 'h', ' '],
            seq!['f', 'b', 'b', 'b', 'e'],
            seq![' ', ' ', 's', 's', ' '],
        ],
        FishKind::Reef => seq![
            seq![' ', ' ', ' ', ' ', ' ', 'f', 'f', ' ', ' ', ' ', ' ', ' '],
            seq![' ', ' ', ' ', 'h', 'h', 'b', 'b', 's', 's', 'b', ' ', ' '],
            seq!['f', 'f', 'h', 'b', 'b', 'b', 's', 's', 'b', 'e', 'b', ' '],
            seq![' ', 'f', 'b', 'b', 'b', 'b', 'b', 's', 's', 'b', 'b', ' '],
            seq![' ', ' ', ' ', ' ', 's', 's', 's', 'f', ' ', ' ', ' ', ' '],
        ],
        FishKind::Angel => seq![
            seq![' ', ' ', ' ', ' ', ' ', 'f', ' ', ' ', ' '],
            seq![' ', ' ', ' ', ' ', 'f', 'h', ' ', ' ', ' '],
            seq![' ', ' ', ' ', 'f', 'h', 'h', 'b', ' ', ' '],
            seq![' ', ' ', 'h', 'b', 'b', 's', 's', 'b', ' '],
            seq!['f', 'f', 'b', 'b', 'b', 's', 'e', 'b', 'b'],
            seq![' ', 'f', 'b', 'b', 'b', 's', 'b', 'b', ' '],
            seq![' ', ' ', 'b', 'b', 's', 's', 'b', ' ', ' '],
            seq![' ', ' ', ' ', 'b', 's', 'f', ' ', ' ', ' '],
            seq![' ', ' ', ' ', ' ', 'f', ' ', ' ', ' ', ' '],
            seq![' ', ' ', ' ', ' ', 'f', ' ', ' ', ' ', ' '],
        ],
    }
}

pub open spec fn art_view(rows: Seq<Vec<char>>) -> Seq<Seq<char>> {
    rows.map_values(|row: Vec<char>| row@)
}

/// The pixel art of `kind`.
pub fn fish_art_rows(kind: FishKind) -> (rows: Vec<Vec<char>>)
    ensures
        art_view(rows@) == fish_art(kind),
{
    let rows = match kind {
        FishKind::Minnow => vec![
                vec![' ', ' ', 'h', 'h', ' '],
                vec!['f', 'b', 'b', 'b', 'e'],
                vec![' ', ' ', 's', 's', ' '],
            ],
        FishKind::Reef => vec![
                vec![' ', ' ', ' ', ' ', ' ', 'f', 'f', ' ', ' ', ' ', ' ', ' '],
                vec![' ', ' ', ' ', 'h', 'h', 'b', 'b', 's', 's', 'b', ' ', ' '],
                vec!['f', 'f', 'h', 'b', 'b', 'b', 's', 's', 'b', 'e', 'b', ' '],
                vec![' ', 'f', 'b', 'b', 'b', 'b', 'b', 's', 's', 'b', 'b', ' '],
                vec![' ', ' ', ' ', ' ', 's', 's', 's', 'f', ' ', ' ', ' ', ' '],
            ],
        FishKind::Angel => vec![
                vec![' ', ' ', ' ', ' ', ' ', 'f', ' ', ' ', ' '],
                vec![' ', ' ', ' ', ' ', 'f', 'h', ' ', ' ', ' '],
                vec![' ', ' ', ' ', 'f', 'h', 'h', 'b', ' ', ' '],
                vec![' ', ' ', 'h', 'b', 'b', 's', 's', 'b', ' '],
                vec!['f', 'f', 'b', 'b', 'b', 's', 'e', 'b', 'b'],
                vec![' ', 'f', 'b', 'b', 'b', 's', 'b', 'b', ' '],
                vec![' ', ' ', 'b', 'b', 's', 's', 'b', ' ', ' '],
                vec![' ', ' ', ' ', 'b', 's', 'f', ' ', ' ', ' '],
                vec![' ', ' ', ' ', ' ', 'f', ' ', ' ', ' ', ' '],
                vec![' ', ' ', ' ', ' ', 'f', ' ', ' ', ' ', ' '],
            ],
    };
    assert(art_view(rows@) =~~= fish_art(kind));
    rows
}

/// The palette row of a fish color: body, highlight, stripe, fin.
pub open spec fn fish_palette(palette: int) -> Seq<[u8; 3]> {
    if palette == 0 {
        seq![[232u8, 137u8, 66u8], [255, 211, 134], [125, 62, 54], [187, 83, 57]]
    } else if palette == 1 {
        seq![[67u8, 190u8, 191u8], [160, 238, 216], [31, 103, 140], [44, 137, 172]]
    } else if palette == 2 {
        seq![[226u8, 193u8, 85u8], [255, 237, 163], [96, 93, 62], [196, 138, 63]]
    } else {
        seq![[183u8, 126u8, 192u8], [241, 191, 218], [97, 71, 131], [144, 83, 154]]
    }
}

/// The tone a part letter is drawn in; `None` for transparent pixels.
pub open spec fn part_tone(part: char) -> Option<nat> {
    if part == 'b' {
        Some(0)
    } else if part == 'h' {
        Some(1)
    } else if part == 's' {
        Some(2)
    } else if part == 'f' {
        Some(3)
    } else if part == 'e' {
        Some(4)
    } else {
        None
    }
}

/// Distant fish are drawn at two thirds of their brightness.
pub open spec fn depth_shaded(color: [u8; 3], depth: usize) -> [u8; 3] {
    if depth == 0 {
        [(color[0] / 3 * 2) as u8, (color[1] / 3 * 2) as u8, (color[2] / 3 * 2) as u8]
    } else {
        color
    }
}

/// The color of a part in tone `tone` of palette `palette`: eyes are always
/// dark.
pub open spec fn tone_color(palette: int, tone: nat) -> [u8; 3] {
    if tone == 4 {
        [13u8, 28u8, 37u8]
    } else {
        fish_palette(palette)[tone as int]
    }
}

/// Where and how one fish is drawn: `x`, `y` is the sprite's center pixel.
#[derive(Debug, Clone, Copy, PartialEq, Eq, Structural)]
pub struct FishSprite {
    pub kind: FishKind,
    pub palette: usize,
    pub depth: usize,
    pub facing_left: bool,
    pub fins_tucked: bool,
    pub x: i32,
    pub y: i32,
}

/// The art column that lands on pixel column `px`, counted in the art's own
/// (right-facing) orientation.
pub open spec fn sprite_column(s: FishSprite, px: int) -> int {
    let width = fish_art(s.kind)[0].len() as int;
    let shifted = px - s.x + width / 2;
    if s.facing_left {
        width - 1 - shifted
    } else {
        shifted
    }
}

/// The art row that lands on pixel row `py`.
pub open spec fn sprite_row(s: FishSprite, py: int) -> int {
    py - s.y + fish_art(s.kind).len() as int / 2
}

/// The color the sprite puts on pixel `px`, `py`, if it covers it: fin tips
/// in even columns disappear while the fins are tucked.
pub open spec fn sprite_color_at(s: FishSprite, px: int, py: int) -> Option<[u8; 3]> {
    let art = fish_art(s.kind);
    let row = sprite_row(s, py);
    let column = sprite_column(s, px);
    if 0 <= row < art.len() && 0 <= column < art[0].len() {
        let part = art[row][column];
        match part_tone(part) {
            None => None,
            Some(tone) => if part == 'f' && s.fins_tucked && column % 2 == 0 {
                None
            } else {
                Some(depth_shaded(tone_color(s.palette as int, tone), s.depth))
            },
        }
    } else {
        None
    }
}

pub open spec fn rgb(color: [u8; 3]) -> RgbColor {
    RgbColor { red: color[0], green: color[1], blue: color[2] }
}

proof fn lemma_fish_art(kind: FishKind)
    ensures
        1 <= fish_art(kind).len() <= 10,
        forall|r: int|
            0 <= r < fish_art(kind).len() ==> (#[trigger] fish_art(kind)[r]).len() == fish_art(
                kind,
            )[0].len(),
        1 <= fish_art(kind)[0].len() <= 12,
{
}

fn tone_and_color(part: char, palette: usize, depth: usize) -> (result: Option<(usize, [u8; 3])>)
    requires
        palette < 4,
    ensures
        match part_tone(part) {
            None => result is None,
            Some(t) => result == Some((t as usize, depth_shaded(tone_color(palette as int, t), depth))),
        },
{
    let tone: usize = if part == 'b' {
        0
    } else if part == 'h' {
        1
    } else if part == 's' {
        2
    } else if part == 'f' {
        3
    } else if part == 'e' {
        4
    } else {
        return None;
    };
    let color: [u8; 3] = if tone == 4 {
        [13, 28, 37]
    } else {
        let table: [[u8; 3]; 4] = if palette == 0 {
            [[232, 137, 66], [255, 211, 134], [125, 62, 54], [187, 83, 57]]
        } else if palette == 1 {
            [[67, 190, 191], [160, 238, 216], [31, 103, 140], [44, 137, 172]]
        } else if palette == 2 {
            [[226, 193, 85], [255, 237, 163], [96, 93, 62], [196, 138, 63]]
        } else {
            [[183, 126, 192], [241, 191, 218], [97, 71, 131], [144, 83, 154]]
        };
        assert(table@ =~= fish_palette(palette as int));
        table[tone]
    };
    let shaded: [u8; 3] = if depth == 0 {
        [color[0] / 3 * 2, color[1] / 3 * 2, color[2] / 3 * 2]
    } else {
        color
    };
    assert(shaded =~= depth_shaded(tone_color(palette as int, tone as nat), depth));
    Some((tone, shaded))
}

/// Draws one fish: every covered pixel of the field takes the sprite's color,
/// every other pixel keeps its own; pixels off the field are dropped.
pub fn paint_fish(field: &mut HalfBlockField, sprite: FishSprite)
    requires
        old(field).wf(),
        sprite.palette < 4,
        i32::MIN + 16 <= sprite.x <= i32::MAX - 16,
        i32::MIN + 16 <= sprite.y <= i32::MAX - 16,
    ensures
        final(field).wf(),
        final(field).width() == old(field).width(),
        final(field).pixel_height() == old(field).pixel_height(),
        forall|i: int, j: int|
            #[trigger] final(field).pixel(i, j) == match sprite_color_at(sprite, i, j) {
                Some(c) => if 0 <= i < old(field).width() && 0 <= j < old(field).pixel_height() {
                    Some(rgb(c))
                } else {
                    old(field).pixel(i, j)
                },
                None => old(field).pixel(i, j),
            },
{
    let art = fish_art_rows(sprite.kind);
    proof {
        lemma_fish_art(sprite.kind);
        assert(art@.len() == fish_art(sprite.kind).len());
        assert forall|r: int| 0 <= r < art@.len() implies (#[trigger] art@[r])@ == fish_art(
            sprite.kind,
        )[r] by {
            assert(art_view(art@)[r] == art@[r]@);
        }
    }
    let ghost untouched = *field;
    let width = art[0].len();
    let rows = art.len();
    let w = width as i32;
    let top = sprite.y - (rows as i32) / 2;
    let left = sprite.x - w / 2;
    let mut dy: usize = 0;
    while dy < rows
        invariant
            dy <= rows,
            rows == art@.len(),
            rows == fish_art(sprite.kind).len(),
            1 <= rows <= 10,
            width == fish_art(sprite.kind)[0].len(),
            1 <= width <= 12,
            w == width as i32,
            top == sprite.y - (rows as i32) / 2,
            left == sprite.x - w / 2,
            sprite.palette < 4,
            i32::MIN + 16 <= sprite.x <= i32::MAX - 16,
            i32::MIN + 16 <= sprite.y <= i32::MAX - 16,
            forall|r: int| 0 <= r < art@.len() ==> (#[trigger] art@[r])@ == fish_art(sprite.kind)[r],
            forall|r: int|
                0 <= r < fish_art(sprite.kind).len() ==> (#[trigger] fish_art(
                    sprite.kind,
                )[r]).len() == fish_art(sprite.kind)[0].len(),
            field.wf(),
            field.width() == untouched.width(),
            field.pixel_height() == untouched.pixel_height(),
            forall|i: int, j: int|
                #[trigger] field.pixel(i, j) == match sprite_color_at(sprite, i, j) {
                    Some(c) => if 0 <= i < untouched.width() && 0 <= j < untouched.pixel_height()
                        && sprite_row(sprite, j) < dy {
                        Some(rgb(c))
                    } else {
                        untouched.pixel(i, j)
                    },
                    None => untouched.pixel(i, j),
                },
        decreases rows - dy,
    {
        let mut dx: usize = 0;
        while dx < width
            invariant
                dy < rows,
                dx <= width,
                rows == art@.len(),
                rows == fish_art(sprite.kind).len(),
                1 <= rows <= 10,
                width == fish_art(sprite.kind)[0].len(),
                1 <= width <= 12,
                w == width as i32,
                top == sprite.y - (rows as i32) / 2,
                left == sprite.x - w / 2,
                sprite.palette < 4,
                i32::MIN + 16 <= sprite.x <= i32::MAX - 16,
                i32::MIN + 16 <= sprite.y <= i32::MAX - 16,
                forall|r: int| 0 <= r < art@.len() ==> (#[trigger] art@[r])@ == fish_art(sprite.kind)[r],
                forall|r: int|
                    0 <= r < fish_art(sprite.kind).len() ==> (#[trigger] fish_art(
                        sprite.kind,
                    )[r]).len() == fish_art(sprite.kind)[0].len(),
                field.wf(),
                field.width() == untouched.width(),
                field.pixel_height() == untouched.pixel_height(),
                forall|i: int, j: int|
                    #[trigger] field.pixel(i, j) == match sprite_color_at(sprite, i, j) {
                        Some(c) => if 0 <= i < untouched.width() && 0 <= j < untouched.pixel_height()
                            && (sprite_row(sprite, j) < dy || (sprite_row(sprite, j) == dy
                            && sprite_column(sprite, i) < dx)) {
                            Some(rgb(c))
                        } else {
                            untouched.pixel(i, j)
                        },
                        None => untouched.pixel(i, j),
                    },
            decreases width - dx,
        {
            let part = art[dy][dx];
            let shown = tone_and_color(part, sprite.palette, sprite.depth);
            let column: i32 = if sprite.facing_left {
                w - 1 - dx as i32
            } else {
                dx as i32
            };
            let px = left + column;
            let py = top + dy as i32;
            proof {
                assert(part == fish_art(sprite.kind)[dy as int][dx as int]);
                assert(sprite_row(sprite, py as int) == dy);
                assert(sprite_column(sprite, px as int) == dx);
            }
            let ghost before = *field;
            match shown {
                Some((tone, color)) => {
                    if !(part == 'f' && sprite.fins_tucked && dx % 2 == 0) {
                        pixel(field, px, py, color);
                        proof {
                            assert(sprite_color_at(sprite, px as int, py as int) == Some(color));
                        }
                    } else {
                        proof {
                            assert(sprite_color_at(sprite, px as int, py as int) is None);
                        }
                    }
                },
                None => {
                    proof {
                        assert(sprite_color_at(sprite, px as int, py as int) is None);
                    }
                },
            }
            proof {
                assert forall|i: int, j: int|
                    #[trigger] field.pixel(i, j) == match sprite_color_at(sprite, i, j) {
                        Some(c) => if 0 <= i < untouched.width() && 0 <= j < untouched.pixel_height()
                            && (sprite_row(sprite, j) < dy || (sprite_row(sprite, j) == dy
                            && sprite_column(sprite, i) < dx + 1)) {
                            Some(rgb(c))
                        } else {
                            untouched.pixel(i, j)
                        },
                        None => untouched.pixel(i, j),
                    } by {
                    if sprite_row(sprite, j) == dy && sprite_column(sprite, i) == dx {
                        assert(i == px && j == py);
                    } else {
                        assert(before.pixel(i, j) == field.pixel(i, j));
                    }
                }
            }
            dx = dx + 1;
        }
        dy = dy + 1;
    }
}

/// How many fish a tank of `area` pixels holds: one per 360 pixels, between
/// six and thirty-six, and none in an empty tank.
pub fn fish_count(area: usize) -> (count: usize)
    ensures
        count == if area == 0 {
            0
        } else if area / 360 < 6 {
            6
        } else if area / 360 > 36 {
            36
        } else {
            area / 360
        },
{
    if area == 0 {
        0
    } else if area / 360 < 6 {
        6
    } else if area / 360 > 36 {
        36
    } else {
        area / 360
    }
}

/// How many bubbles rise: one per 220 pixels, between four and sixty-four.
pub fn bubble_count(area: usize) -> (count: usize)
    ensures
        count == if area == 0 {
            0
        } else if area / 220 < 4 {
            4
        } else if area / 220 > 64 {
            64
        } else {
            area / 220
        },
{
    if area == 0 {
        0
    } else if area / 220 < 4 {
        4
    } else if area / 220 > 64 {
        64
    } else {
        area / 220
    }
}

/// How many plants grow: one per seven columns, between four and thirty-two.
pub fn plant_count(area: usize, width: usize) -> (count: usize)
    ensures
        count == if area == 0 {
            0
        } else if width / 7 < 4 {
            4
        } else if width / 7 > 32 {
            32
        } else {
            width / 7
        },
{
    if area == 0 {
        0
    } else if width / 7 < 4 {
        4
    } else if width / 7 > 32 {
        32
    } else {
        width / 7
    }
}

/// What kind of fish number `index` is and where it swims.
#[derive(Debug, Clone, Copy, PartialEq, Eq, Structural)]
pub struct FishTraits {
    /// The first few fish swim together near the surface.
    pub school: bool,
    pub kind: FishKind,
    pub palette: usize,
    /// 0 behind the plants, 1 among them, 2 in front.
    pub depth: usize,
}

/// Fish `index` of a `width` x `height` tank of `area` pixels: three (six in
/// tanks of 4,000 pixels or more) schooling minnows first, then, in tanks at
/// least 30 x 16, every third fish an angel and the others reef fish.
pub fn fish_traits(index: usize, area: usize, width: usize, height: usize) -> (traits: FishTraits)
    ensures
        traits.school == (index < if area < 4_000 { 3usize } else { 6usize }),
        traits.kind == if traits.school || height < 16 || width < 30 {
            FishKind::Minnow
        } else if index % 3 == 0 {
            FishKind::Angel
        } else {
            FishKind::Reef
        },
        traits.palette == if traits.school { 1 } else { index % 4 },
        traits.depth == if traits.school { 0 } else { 1 + index % 2 },
        traits.palette < 4,
{
    let school = index < if area < 4_000 {
        3
    } else {
        6
    };
    let kind = if school || height < 16 || width < 30 {
        FishKind::Minnow
    } else if index % 3 == 0 {
        FishKind::Angel
    } else {
        FishKind::Reef
    };
    FishTraits {
        school,
        kind,
        palette: if school {
            1
        } else {
            index % 4
        },
        depth: if school {
            0
        } else {
            1 + index % 2
        },
    }
}

/// The positions in `depths` that hold `depth`, in order: the fish drawn in
/// that layer, back to front by index.
pub open spec fn layer_members(depths: Seq<usize>, depth: usize) -> Seq<usize>
    decreases depths.len(),
{
    if depths.len() == 0 {
        Seq::empty()
    } else {
        let earlier = layer_members(depths.drop_last(), depth);
        if depths.last() == depth {
            earlier.push((depths.len() - 1) as usize)
        } else {
            earlier
        }
    }
}

/// The fish (by index) that swim at `depth`, given each fish's depth: the
/// tank paints the layers behind the plants, among them and in front in turn.
pub fn fish_in_layer(depths: &Vec<usize>, depth: usize) -> (members: Vec<usize>)
    ensures
        members@ == layer_members(depths@, depth),
{
    let mut members: Vec<usize> = Vec::new();
    let mut i: usize = 0;
    while i < depths.len()
        invariant
            i <= depths@.len(),
            members@ == layer_members(depths@.take(i as int), depth),
        decreases depths.len() - i,
    {
        proof {
            assert(depths@.take(i + 1).drop_last() =~= depths@.take(i as int));
            assert(depths@.take(i + 1).last() == depths@[i as int]);
        }
        if depths[i] == depth {
            members.push(i);
        }
        i = i + 1;
    }
    proof {
        assert(depths@.take(i as int) =~= depths@);
    }
    members
}

/// Each layer lists exactly the fish at its depth, each once and in order.
pub proof fn lemma_layer_members(depths: Seq<usize>, depth: usize)
    requires
        depths.len() <= usize::MAX,
    ensures
        forall|k: int|
            0 <= k < layer_members(depths, depth).len() ==> {
                let i = #[trigger] layer_members(depths, depth)[k];
                i < depths.len() && depths[i as int] == depth
            },
        forall|a: int, b: int|
            0 <= a < b < layer_members(depths, depth).len() ==> #[trigger] layer_members(
                depths,
                depth,
            )[a] < #[trigger] layer_members(depths, depth)[b],
        forall|i: int|
            0 <= i < depths.len() && depths[i] == depth ==> #[trigger] layer_members(
                depths,
                depth,
            ).contains(i as usize),
    decreases depths.len(),
{
    if depths.len() > 0 {
        let rest = depths.drop_last();
        lemma_layer_members(rest, depth);
        let earlier = layer_members(rest, depth);
        let members = layer_members(depths, depth);
        let last = (depths.len() - 1) as usize;
        assert(last as int == depths.len() - 1);
        assert forall|k: int| 0 <= k < earlier.len() implies #[trigger] members[k] == earlier[k]
            && earlier[k] < last && depths[earlier[k] as int] == depth by {
            assert(rest[earlier[k] as int] == depths[earlier[k] as int]);
        }
        if depths.last() == depth {
            assert(members[earlier.len() as int] == last);
        }
        assert forall|i: int|
            0 <= i < depths.len() && depths[i] == depth implies #[trigger] layer_members(
            depths,
            depth,
        ).contains(i as usize) by {
            if i < depths.len() - 1 {
                assert(rest[i] == depths[i]);
                assert(earlier.contains(i as usize));
                let k = choose|k: int| 0 <= k < earlier.len() && earlier[k] == i as usize;
                assert(layer_members(depths, depth)[k] == i as usize);
            } else {
                let members = layer_members(depths, depth);
                assert(members[members.len() - 1] == i as usize);
            }
        }
    }
}

/// The water at pixel row `y` of `height`: sixteen bands, lighter with depth.
pub open spec fn water_color(y: nat, height: nat) -> [u8; 3] {
    let shade = if y * 16 / height > 15 {
        15
    } else {
        y * 16 / height
    };
    [(5 + shade / 3) as u8, (17 + shade) as u8, (27 + shade) as u8]
}

/// Fills the whole field with the water gradient.
pub fn paint_water(field: &mut HalfBlockField)
    requires
        old(field).wf(),
        old(field).pixel_height() * 16 <= usize::MAX,
    ensures
        final(field).wf(),
        final(field).width() == old(field).width(),
        final(field).pixel_height() == old(field).pixel_height(),
        forall|i: int, j: int|
            #[trigger] final(field).pixel(i, j) == if 0 <= i < old(field).width() && 0 <= j < old(
                field,
            ).pixel_height() {
                Some(rgb(water_color(j as nat, old(field).pixel_height())))
            } else {
                None
            },
{
    let width = field.columns();
    let height = field.pixel_rows();
    proof {
        field.lemma_outside();
    }
    let mut y: usize = 0;
    while y < height
        invariant
            y <= height,
            height * 16 <= usize::MAX,
            field.wf(),
            field.width() == width,
            field.pixel_height() == height,
            forall|i: int, j: int|
                #[trigger] field.pixel(i, j) == if 0 <= i < width && 0 <= j < y {
                    Some(rgb(water_color(j as nat, height as nat)))
                } else if 0 <= i < width && 0 <= j < height {
                    old(field).pixel(i, j)
                } else {
                    None
                },
        decreases height - y,
    {
        let scaled = y * 16 / height;
        let shade: u8 = if scaled > 15 {
            15
        } else {
            scaled as u8
        };
        let color = RgbColor::new(5 + shade / 3, 17 + shade, 27 + shade);
        proof {
            assert(color == rgb(water_color(y as nat, height as nat)));
        }
        let mut x: usize = 0;
        while x < width
            invariant
                y < height,
                x <= width,
                field.wf(),
                field.width() == width,
                field.pixel_height() == height,
                color == rgb(water_color(y as nat, height as nat)),
                forall|i: int, j: int|
                    #[trigger] field.pixel(i, j) == if 0 <= i < width && (0 <= j < y || (j == y
                        && i < x)) {
                        Some(rgb(water_color(j as nat, height as nat)))
                    } else if 0 <= i < width && 0 <= j < height {
                        old(field).pixel(i, j)
                    } else {
                        None
                    },
            decreases width - x,
        {
            field.set(x, y, Some(color));
            x = x + 1;
        }
        y = y + 1;
    }
}

pub open spec fn sand_color_spec(x: nat, y: nat) -> [u8; 3] {
    if (x * 13 + y * 7) % 11 <= 1 {
        [101u8, 105u8, 77u8]
    } else if (x * 13 + y * 7) % 11 <= 4 {
        [63u8, 78u8, 66u8]
    } else {
        [35u8, 53u8, 52u8]
    }
}

/// The sea floor's gravel at pixel `x`, `y`.
pub fn sand_color(x: usize, y: usize) -> (color: [u8; 3])
    requires
        x * 13 + y * 7 <= usize::MAX,
    ensures
        color == sand_color_spec(x as nat, y as nat),
{
    let k = (x * 13 + y * 7) % 11;
    if k <= 1 {
        [101, 105, 77]
    } else if k <= 4 {
        [63, 78, 66]
    } else {
        [35, 53, 52]
    }
}

/// The pixel row of the suspended speck above column `x` (every seventh column has one).
pub fn speck_row(x: usize, height: usize) -> (row: usize)
    requires
        height > 0,
        x * 17 + 9 <= usize::MAX,
    ensures
        row == (x * 17 + 9) % (height as int),
        row < height,
{
    (x * 17 + 9) % height
}

/// `value / 2`, rounded toward zero.
pub open spec fn half_toward_zero(value: int) -> int {
    if value >= 0 {
        value / 2
    } else {
        -((-value) / 2)
    }
}

/// The color of a rock pixel `dx`, `dy` from the foot of an outcrop `ry` pixels
/// tall: the upper half is speckled with lighter stone.
pub fn rock_color(dx: i32, dy: i32, ry: i32) -> (color: [u8; 3])
    requires
        ry > i32::MIN,
        i32::MIN < dx - dy <= i32::MAX,
    ensures
        color == if dy < half_toward_zero(-ry) && (dx - dy) % 3 != 0 {
            [67u8, 94u8, 88u8]
        } else {
            [30u8, 58u8, 61u8]
        },
{
    let diff = dx - dy;
    let offset = if diff >= 0 {
        diff % 3
    } else {
        (-diff) % 3
    };
    proof {
        assert((diff >= 0 ==> offset == diff % 3) && (diff < 0 ==> (offset == 0 <==> diff % 3 == 0)))
            by (nonlinear_arith)
            requires
                diff >= 0 ==> offset == diff % 3,
                diff < 0 ==> offset == (-diff) % 3,
        ;
    }
    if dy < -ry / 2 && offset != 0 {
        [67, 94, 88]
    } else {
        [30, 58, 61]
    }
}


/// The color of the last of `points` at `i`, `j`.
pub open spec fn last_color_at(points: Seq<(i32, i32, [u8; 3])>, i: int, j: int) -> Option<[u8; 3]>
    decreases points.len(),
{
    if points.len() == 0 {
        None
    } else if points.last().0 == i && points.last().1 == j {
        Some(points.last().2)
    } else {
        last_color_at(points.drop_last(), i, j)
    }
}

/// Paints `points` in order, so a later point over an earlier one wins;
/// points off the field are dropped.
pub fn paint_points(field: &mut HalfBlockField, points: &Vec<(i32, i32, [u8; 3])>)
    requires
        old(field).wf(),
    ensures
        final(field).wf(),
        final(field).width() == old(field).width(),
        final(field).pixel_height() == old(field).pixel_height(),
        forall|i: int, j: int|
            #[trigger] final(field).pixel(i, j) == match last_color_at(points@, i, j) {
                Some(c) => if 0 <= i < old(field).width() && 0 <= j < old(field).pixel_height() {
                    Some(rgb(c))
                } else {
                    old(field).pixel(i, j)
                },
                None => old(field).pixel(i, j),
            },
{
    let ghost untouched = *field;
    let mut k: usize = 0;
    assert(points@.take(0) =~= Seq::<(i32, i32, [u8; 3])>::empty());
    while k < points.len()
        invariant
            k <= points@.len(),
            field.wf(),
            field.width() == untouched.width(),
            field.pixel_height() == untouched.pixel_height(),
            forall|i: int, j: int|
                #[trigger] field.pixel(i, j) == match last_color_at(points@.take(k as int), i, j) {
                    Some(c) => if 0 <= i < untouched.width() && 0 <= j < untouched.pixel_height() {
                        Some(rgb(c))
                    } else {
                        untouched.pixel(i, j)
                    },
                    None => untouched.pixel(i, j),
                },
        decreases points.len() - k,
    {
        let point = points[k];
        let ghost before = *field;
        pixel(field, point.0, point.1, point.2);
        proof {
            let taken = points@.take(k + 1);
            assert(taken.drop_last() =~= points@.take(k as int));
            assert(taken.last() == point);
            untouched.lemma_outside();
        }
        k = k + 1;
    }
    proof {
        assert(points@.take(k as int) =~= points@);
    }
}

/// The sand crab at `x`, `y`: a two-row body, eye stalks, claws, and legs
/// shifted by `steps` (left leg, right leg).
pub open spec fn crab_points_spec(x: i32, y: i32, steps: (i32, i32)) -> Seq<(i32, i32, [u8; 3])> {
    let shell = [195u8, 119u8, 83u8];
    let belly = [133u8, 78u8, 67u8];
    let eye = [231u8, 197u8, 143u8];
    seq![
        ((x - 2) as i32, y, shell),
        ((x - 2) as i32, (y + 1) as i32, belly),
        ((x - 1) as i32, y, shell),
        ((x - 1) as i32, (y + 1) as i32, belly),
        (x, y, shell),
        (x, (y + 1) as i32, belly),
        ((x + 1) as i32, y, shell),
        ((x + 1) as i32, (y + 1) as i32, belly),
        ((x + 2) as i32, y, shell),
        ((x + 2) as i32, (y + 1) as i32, belly),
        ((x - 1) as i32, (y - 1) as i32, eye),
        ((x - 3) as i32, (y - 1) as i32, shell),
        ((x - 3 + steps.0) as i32, (y + 2) as i32, belly),
        ((x + 1) as i32, (y - 1) as i32, eye),
        ((x + 3) as i32, (y - 1) as i32, shell),
        ((x + 3 + steps.1) as i32, (y + 2) as i32, belly),
    ]
}

/// The crab's pixels, in painting order.
pub fn crab_points(x: i32, y: i32, steps: (i32, i32)) -> (points: Vec<(i32, i32, [u8; 3])>)
    requires
        i32::MIN + 8 <= x <= i32::MAX - 8,
        i32::MIN + 8 <= y <= i32::MAX - 8,
        -1 <= steps.0 <= 1,
        -1 <= steps.1 <= 1,
    ensures
        points@ == crab_points_spec(x, y, steps),
{
    let shell: [u8; 3] = [195, 119, 83];
    let belly: [u8; 3] = [133, 78, 67];
    let eye: [u8; 3] = [231, 197, 143];
    let mut points: Vec<(i32, i32, [u8; 3])> = Vec::new();
    let mut dx: i32 = -2;
    while dx <= 2
        invariant
            -2 <= dx <= 3,
            i32::MIN + 8 <= x <= i32::MAX - 8,
            i32::MIN + 8 <= y <= i32::MAX - 8,
            shell == [195u8, 119u8, 83u8],
            belly == [133u8, 78u8, 67u8],
            points@ == crab_points_spec(x, y, steps).take(2 * (dx + 2)),
        decreases 3 - dx,
    {
        points.push((x + dx, y, shell));
        points.push((x + dx, y + 1, belly));
        proof {
            assert(points@ =~= crab_points_spec(x, y, steps).take(2 * (dx + 3)));
        }
        dx = dx + 1;
    }
    points.push((x - 1, y - 1, eye));
    points.push((x - 3, y - 1, shell));
    points.push((x - 3 + steps.0, y + 2, belly));
    points.push((x + 1, y - 1, eye));
    points.push((x + 3, y - 1, shell));
    points.push((x + 3 + steps.1, y + 2, belly));
    proof {
        assert(points@ =~= crab_points_spec(x, y, steps));
    }
    points
}

/// A bubble at `x`, `y`: a ring with a highlight on top when large, a single
/// pixel otherwise.
pub open spec fn bubble_points_spec(x: i32, y: i32, large: bool) -> Seq<(i32, i32, [u8; 3])> {
    let rim = [49u8, 99u8, 111u8];
    if large {
        seq![
            ((x - 1) as i32, y, rim),
            (x, (y - 1) as i32, rim),
            ((x + 1) as i32, y, rim),
            (x, (y + 1) as i32, rim),
            (x, (y - 1) as i32, [143u8, 197u8, 195u8]),
        ]
    } else {
        seq![(x, y, [69u8, 119u8, 129u8])]
    }
}

/// The bubble's pixels, in painting order.
pub fn bubble_points(x: i32, y: i32, large: bool) -> (points: Vec<(i32, i32, [u8; 3])>)
    requires
        i32::MIN + 1 <= x <= i32::MAX - 1,
        i32::MIN + 1 <= y <= i32::MAX - 1,
    ensures
        points@ == bubble_points_spec(x, y, large),
{
    let mut points: Vec<(i32, i32, [u8; 3])> = Vec::new();
    if large {
        let rim: [u8; 3] = [49, 99, 111];
        points.push((x - 1, y, rim));
        points.push((x, y - 1, rim));
        points.push((x + 1, y, rim));
        points.push((x, y + 1, rim));
        points.push((x, y - 1, [143, 197, 195]));
    } else {
        points.push((x, y, [69, 119, 129]));
    }
    proof {
        assert(points@ =~= bubble_points_spec(x, y, large));
    }
    points
}


/// How far the ray's body reaches sideways `depth` rows above or below its middle.
pub open spec fn ray_reach(depth: int) -> int {
    8 - depth * 3 / 4
}

pub open spec fn abs(value: int) -> int {
    if value < 0 {
        -value
    } else {
        value
    }
}

/// The color the ray's body puts on pixel `i`, `j`: a diamond of wings
/// `wing` rows above and below `y`, swept back half a column per row, lighter
/// along its middle.
pub open spec fn ray_color_at(x: int, y: int, wing: int, i: int, j: int) -> Option<[u8; 3]> {
    let depth = abs(j - y);
    let dx = i - x + depth / 2;
    if depth <= wing && abs(dx) <= ray_reach(depth) {
        Some(
            if depth < 2 {
                [91u8, 131u8, 140u8]
            } else {
                [43u8, 81u8, 101u8]
            },
        )
    } else {
        None
    }
}

/// Draws the ray's body; every other pixel keeps its own color, and pixels off
/// the field are dropped.
pub fn paint_ray_body(field: &mut HalfBlockField, x: i32, y: i32, wing: i32)
    requires
        old(field).wf(),
        0 <= wing <= 16,
        i32::MIN + 32 <= x <= i32::MAX - 32,
        i32::MIN + 32 <= y <= i32::MAX - 32,
    ensures
        final(field).wf(),
        final(field).width() == old(field).width(),
        final(field).pixel_height() == old(field).pixel_height(),
        forall|i: int, j: int|
            #[trigger] final(field).pixel(i, j) == match ray_color_at(x as int, y as int, wing as int, i, j) {
                Some(c) => if 0 <= i < old(field).width() && 0 <= j < old(field).pixel_height() {
                    Some(rgb(c))
                } else {
                    old(field).pixel(i, j)
                },
                None => old(field).pixel(i, j),
            },
{
    let ghost untouched = *field;
    let mut dy: i32 = -wing;
    while dy <= wing
        invariant
            -wing <= dy <= wing + 1,
            0 <= wing <= 16,
            i32::MIN + 32 <= x <= i32::MAX - 32,
            i32::MIN + 32 <= y <= i32::MAX - 32,
            field.wf(),
            field.width() == untouched.width(),
            field.pixel_height() == untouched.pixel_height(),
            forall|i: int, j: int|
                #[trigger] field.pixel(i, j) == match ray_color_at(x as int, y as int, wing as int, i, j) {
                    Some(c) => if 0 <= i < untouched.width() && 0 <= j < untouched.pixel_height()
                        && j - y < dy {
                        Some(rgb(c))
                    } else {
                        untouched.pixel(i, j)
                    },
                    None => untouched.pixel(i, j),
                },
        decreases wing + 1 - dy,
    {
        let depth: i32 = if dy < 0 {
            -dy
        } else {
            dy
        };
        let reach: i32 = 8 - depth * 3 / 4;
        let shift: i32 = depth / 2;
        let color: [u8; 3] = if depth < 2 {
            [91, 131, 140]
        } else {
            [43, 81, 101]
        };
        let mut dx: i32 = -reach;
        while dx <= reach
            invariant
                -wing <= dy <= wing,
                0 <= wing <= 16,
                depth as int == abs(dy as int),
                reach as int == ray_reach(depth as int),
                shift as int == depth as int / 2,
                color == (if depth < 2 { [91u8, 131u8, 140u8] } else { [43u8, 81u8, 101u8] }),
                -reach <= dx,
                dx <= reach + 1 || dx == -reach,
                i32::MIN + 32 <= x <= i32::MAX - 32,
                i32::MIN + 32 <= y <= i32::MAX - 32,
                field.wf(),
                field.width() == untouched.width(),
                field.pixel_height() == untouched.pixel_height(),
                forall|i: int, j: int|
                    #[trigger] field.pixel(i, j) == match ray_color_at(
                        x as int,
                        y as int,
                        wing as int,
                        i,
                        j,
                    ) {
                        Some(c) => if 0 <= i < untouched.width() && 0 <= j < untouched.pixel_height()
                            && (j - y < dy || (j - y == dy && i - x + shift < dx)) {
                            Some(rgb(c))
                        } else {
                            untouched.pixel(i, j)
                        },
                        None => untouched.pixel(i, j),
                    },
            decreases reach + 1 - dx,
        {
            let px = x + dx - shift;
            let py = y + dy;
            let ghost before = *field;
            pixel(field, px, py, color);
            proof {
                assert(ray_color_at(x as int, y as int, wing as int, px as int, py as int) == Some(
                    color,
                ));
                assert forall|i: int, j: int|
                    #[trigger] field.pixel(i, j) == match ray_color_at(
                        x as int,
                        y as int,
                        wing as int,
                        i,
                        j,
                    ) {
                        Some(c) => if 0 <= i < untouched.width() && 0 <= j < untouched.pixel_height()
                            && (j - y < dy || (j - y == dy && i - x + shift < dx + 1)) {
                            Some(rgb(c))
                        } else {
                            untouched.pixel(i, j)
                        },
                        None => untouched.pixel(i, j),
                    } by {
                    if j - y == dy && i - x + shift == dx {
                        assert(i == px && j == py);
                    } else {
                        assert(before.pixel(i, j) == field.pixel(i, j));
                    }
                }
            }
            dx = dx + 1;
        }
        proof {
            assert forall|i: int, j: int|
                #[trigger] field.pixel(i, j) == match ray_color_at(
                    x as int,
                    y as int,
                    wing as int,
                    i,
                    j,
                ) {
                    Some(c) => if 0 <= i < untouched.width() && 0 <= j < untouched.pixel_height()
                        && j - y < dy + 1 {
                        Some(rgb(c))
                    } else {
                        untouched.pixel(i, j)
                    },
                    None => untouched.pixel(i, j),
                } by {
                if j - y == dy {
                    if ray_color_at(x as int, y as int, wing as int, i, j) is Some {
                        assert(abs(i - x + shift) <= reach);
                    }
                }
            }
        }
        dy = dy + 1;
    }
}

/// Lays gravel on column `x` for the bottom `rise` pixel rows.
pub fn paint_sand_column(field: &mut HalfBlockField, x: usize, rise: usize)
    requires
        old(field).wf(),
        x * 13 + old(field).pixel_height() * 7 <= usize::MAX,
    ensures
        final(field).wf(),
        final(field).width() == old(field).width(),
        final(field).pixel_height() == old(field).pixel_height(),
        forall|i: int, j: int|
            #[trigger] final(field).pixel(i, j) == if i == x && x < old(field).width() && 0 <= j
                < old(field).pixel_height() && j + rise >= old(field).pixel_height() {
                Some(rgb(sand_color_spec(x as nat, j as nat)))
            } else {
                old(field).pixel(i, j)
            },
{
    let height = field.pixel_rows();
    let ghost untouched = *field;
    let mut y = if height > rise {
        height - rise
    } else {
        0
    };
    while y < height
        invariant
            y <= height,
            y + rise >= height,
            height == untouched.pixel_height(),
            x * 13 + height * 7 <= usize::MAX,
            field.wf(),
            field.width() == untouched.width(),
            field.pixel_height() == height,
            forall|i: int, j: int|
                #[trigger] field.pixel(i, j) == if i == x && x < untouched.width() && 0 <= j < y
                    && j + rise >= height {
                    Some(rgb(sand_color_spec(x as nat, j as nat)))
                } else {
                    untouched.pixel(i, j)
                },
        decreases height - y,
    {
        let color = sand_color(x, y);
        field.set(x, y, Some(RgbColor::new(color[0], color[1], color[2])));
        y = y + 1;
    }
}


/// A plant's color: coral is pink, front plants a bright green, back plants dark.
pub fn plant_color(coral: bool, front: bool) -> (color: [u8; 3])
    ensures
        color == if coral {
            [169u8, 93u8, 110u8]
        } else if front {
            [47u8, 142u8, 105u8]
        } else {
            [21u8, 70u8, 67u8]
        },
{
    if coral {
        [169, 93, 110]
    } else if front {
        [47, 142, 105]
    } else {
        [21, 70, 67]
    }
}

/// How many stalk segments a plant of `height` draws: coral stays short.
pub fn stalk_height(height: usize, coral: bool) -> (stalk: usize)
    ensures
        stalk == if coral && height > 12 { 12 } else { height },
{
    if coral && height > 12 {
        12
    } else {
        height
    }
}

/// The pixels of stalk segment `rise` at `x`, `y`: the stalk pixel, and on
/// every third segment a leaf reaching up and out to alternating sides (five
/// pixels for coral, three otherwise), tipped pink on coral and lit beside the
/// stalk on front plants.
pub open spec fn plant_segment_spec(
    x: i32,
    y: i32,
    rise: nat,
    coral: bool,
    front: bool,
    color: [u8; 3],
) -> Seq<(i32, i32, [u8; 3])> {
    let stalk = seq![(x, y, color)];
    if rise % 3 != 1 {
        stalk
    } else {
        let direction: int = if rise % 2 == 0 { 1 } else { -1 };
        let reach: int = if coral { 5 } else { 3 };
        let leaf = Seq::new(
            reach as nat,
            |k: int| ((x + direction * (k + 1)) as i32, (y - (k + 1) / 2) as i32, color),
        );
        let tip = if coral {
            seq![((x + direction * reach) as i32, (y - reach / 2 - 1) as i32, [228u8, 151u8, 151u8])]
        } else if front {
            seq![((x - direction) as i32, y, [96u8, 183u8, 119u8])]
        } else {
            Seq::empty()
        };
        stalk + leaf + tip
    }
}

/// The pixels of one stalk segment, in painting order.
pub fn plant_segment_points(
    x: i32,
    y: i32,
    rise: usize,
    coral: bool,
    front: bool,
    color: [u8; 3],
) -> (points: Vec<(i32, i32, [u8; 3])>)
    requires
        i32::MIN + 8 <= x <= i32::MAX - 8,
        i32::MIN + 8 <= y <= i32::MAX - 8,
    ensures
        points@ == plant_segment_spec(x, y, rise as nat, coral, front, color),
{
    let mut points: Vec<(i32, i32, [u8; 3])> = Vec::new();
    points.push((x, y, color));
    if rise % 3 != 1 {
        return points;
    }
    let direction: i32 = if rise % 2 == 0 {
        1
    } else {
        -1
    };
    let reach: i32 = if coral {
        5
    } else {
        3
    };
    let ghost leaf = Seq::new(
        reach as nat,
        |k: int| ((x + direction * (k + 1)) as i32, (y - (k + 1) / 2) as i32, color),
    );
    let mut k: i32 = 1;
    while k <= reach
        invariant
            1 <= k <= reach + 1,
            reach == 3 || reach == 5,
            direction == 1 || direction == -1,
            i32::MIN + 8 <= x <= i32::MAX - 8,
            i32::MIN + 8 <= y <= i32::MAX - 8,
            leaf == Seq::new(
                reach as nat,
                |k: int| ((x + direction * (k + 1)) as i32, (y - (k + 1) / 2) as i32, color),
            ),
            points@ == seq![(x, y, color)] + leaf.take(k - 1),
        decreases reach + 1 - k,
    {
        let offset: i32 = if direction > 0 {
            k
        } else {
            -k
        };
        assert(offset == direction * k) by (nonlinear_arith)
            requires
                direction == 1 || direction == -1,
                offset == if direction > 0 { k as int } else { -k },
        ;
        points.push((x + offset, y - k / 2, color));
        proof {
            assert(leaf[k - 1] == ((x + direction * k) as i32, (y - k / 2) as i32, color));
            assert(points@ =~= seq![(x, y, color)] + leaf.take(k as int));
        }
        k = k + 1;
    }
    if coral {
        let offset: i32 = if direction > 0 {
            reach
        } else {
            -reach
        };
        assert(offset == direction * reach) by (nonlinear_arith)
            requires
                direction == 1 || direction == -1,
                offset == if direction > 0 { reach as int } else { -reach },
        ;
        points.push((x + offset, y - reach / 2 - 1, [228, 151, 151]));
    } else if front {
        points.push((x - direction, y, [96, 183, 119]));
    }
    proof {
        assert(leaf.take(reach as int) =~= leaf);
        assert(points@ =~= plant_segment_spec(x, y, rise as nat, coral, front, color));
    }
    points
}

} // verus!
