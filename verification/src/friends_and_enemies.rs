//! Population size and density palette for the friends-and-enemies particles.

use vstd::prelude::*;

use crate::physarum::saturating_area;
use crate::random::{lcg_step, scaled_index, seeded_index};
use crate::screen::{lemma_grid_index, lemma_grid_index_unique, HalfBlockField, RgbColor};

verus! {

pub const FRIENDS_AND_ENEMIES_STYLE: &'static str = "friends_and_enemies";

pub const MAX_PARTICLES: usize = 1_600;

/// One particle per two cells of the (saturated) area, rounded up, kept
/// between 500 and `MAX_PARTICLES`.
pub fn particle_count(width: usize, height: usize) -> (count: usize)
    ensures
        count == if (saturating_area(width as nat, height as nat) + 1) / 2 < 500 {
            500
        } else if (saturating_area(width as nat, height as nat) + 1) / 2 > MAX_PARTICLES {
            MAX_PARTICLES as nat
        } else {
            (saturating_area(width as nat, height as nat) + 1) / 2
        },
{
    let area = width.checked_mul(height).unwrap_or(usize::MAX);
    let half = area / 2 + area % 2;
    if half < 500 {
        500
    } else if half > MAX_PARTICLES {
        MAX_PARTICLES
    } else {
        half
    }
}

pub open spec fn density_color_of(density: u8) -> RgbColor {
    if density == 1 {
        RgbColor { red: 0, green: 150, blue: 145 }
    } else if density == 2 {
        RgbColor { red: 0, green: 220, blue: 205 }
    } else if density == 3 {
        RgbColor { red: 110, green: 245, blue: 225 }
    } else {
        RgbColor { red: 240, green: 255, blue: 250 }
    }
}

/// The color of a sample hit by `density` particles (at least one).
pub fn density_color(density: u8) -> (color: RgbColor)
    ensures
        color == density_color_of(density),
{
    if density == 1 {
        RgbColor::new(0, 150, 145)
    } else if density == 2 {
        RgbColor::new(0, 220, 205)
    } else if density == 3 {
        RgbColor::new(110, 245, 225)
    } else {
        RgbColor::new(240, 255, 250)
    }
}


pub open spec fn lands_on(sample: Option<usize>, cell: int) -> bool {
    match sample {
        Some(j) => j == cell,
        None => false,
    }
}

/// How many of `samples` land on cell `cell`.
pub open spec fn hits(samples: Seq<Option<usize>>, cell: int) -> nat
    decreases samples.len(),
{
    if samples.len() == 0 {
        0
    } else {
        hits(samples.drop_last(), cell) + if lands_on(samples.last(), cell) {
            1nat
        } else {
            0nat
        }
    }
}

/// `n`, saturated to a byte.
pub open spec fn saturated(n: nat) -> u8 {
    if n > 255 {
        255
    } else {
        n as u8
    }
}

/// Counts the samples that land on each cell (the cell `y * width + x` of the
/// field), saturating at 255, and colors every hit cell by its count; cells
/// that no sample lands on are left empty.
pub fn paint_density(field: &mut HalfBlockField, density: &mut Vec<u8>, samples: &Vec<Option<usize>>)
    requires
        old(field).wf(),
        old(density)@.len() == old(field).width() * old(field).pixel_height(),
        forall|k: int|
            0 <= k < samples@.len() ==> (#[trigger] samples@[k] matches Some(i) ==> i < old(
                density,
            )@.len()),
    ensures
        final(field).wf(),
        final(field).width() == old(field).width(),
        final(field).pixel_height() == old(field).pixel_height(),
        final(density)@.len() == old(density)@.len(),
        forall|i: int|
            0 <= i < final(density)@.len() ==> #[trigger] final(density)@[i] == saturated(
                hits(samples@, i),
            ),
        forall|x: int, y: int|
            #[trigger] final(field).pixel(x, y) == if 0 <= x < old(field).width() && 0 <= y < old(
                field,
            ).pixel_height() && hits(samples@, y * old(field).width() + x) > 0 {
                Some(
                    density_color_of(
                        saturated(hits(samples@, y * old(field).width() + x)),
                    ),
                )
            } else {
                None
            },
{
    let ghost width = field.width();
    let ghost height = field.pixel_height();
    let mut i: usize = 0;
    while i < density.len()
        invariant
            i <= density@.len(),
            density@.len() == old(density)@.len(),
            forall|j: int| 0 <= j < i ==> #[trigger] density@[j] == 0,
        decreases density.len() - i,
    {
        density.set(i, 0);
        i = i + 1;
    }
    field.clear();
    let w = field_width(field);
    let mut k: usize = 0;
    assert(samples@.take(0) =~= Seq::<Option<usize>>::empty());
    while k < samples.len()
        invariant
            k <= samples@.len(),
            field.wf(),
            field.width() == width,
            field.pixel_height() == height,
            w == width,
            density@.len() == width * height,
            forall|j: int|
                0 <= j < samples@.len() ==> (#[trigger] samples@[j] matches Some(i) ==> i
                    < density@.len()),
            forall|i: int|
                0 <= i < density@.len() ==> #[trigger] density@[i] == saturated(
                    hits(samples@.take(k as int), i),
                ),
            forall|x: int, y: int|
                #[trigger] field.pixel(x, y) == if 0 <= x < width && 0 <= y < height && hits(
                    samples@.take(k as int),
                    y * width + x,
                ) > 0 {
                    Some(density_color_of(saturated(hits(samples@.take(k as int), y * width + x))))
                } else {
                    None
                },
        decreases samples.len() - k,
    {
        let ghost before = samples@.take(k as int);
        let ghost after = samples@.take(k + 1);
        proof {
            assert(after.drop_last() =~= before);
            assert(after.last() == samples@[k as int]);
        }
        match samples[k] {
            None => {
                proof {
                    assert forall|i: int| 0 <= i < density@.len() implies hits(after, i) == hits(
                        before,
                        i,
                    ) by {}
                    assert forall|x: int, y: int| #[trigger] field.pixel(x, y) == if 0 <= x < width
                        && 0 <= y < height && hits(after, y * width + x) > 0 {
                        Some(density_color_of(saturated(hits(after, y * width + x))))
                    } else {
                        None
                    } by {
                        assert(hits(after, y * width + x) == hits(before, y * width + x));
                    }
                }
            },
            Some(index) => {
                let ghost dens_before = density@;
                let ghost field_before = *field;
                let count = density[index];
                let updated = if count < 255 {
                    count + 1
                } else {
                    255
                };
                density.set(index, updated);
                proof {
                    assert(w > 0) by {
                        if w == 0 {
                            assert(density@.len() == 0);
                        }
                    }
                    vstd::arithmetic::div_mod::lemma_fundamental_div_mod(index as int, w as int);
                    assert(index / w < height) by (nonlinear_arith)
                        requires
                            index < width * height,
                            w == width,
                            w > 0,
                    ;
                }
                let color = density_color(updated);
                field.set(index % w, index / w, Some(color));
                proof {
                    let cx = (index % w) as int;
                    let cy = (index / w) as int;
                    assert(cy * width + cx == index) by (nonlinear_arith)
                        requires
                            index == w * (index / w) + index % w,
                            w == width,
                            cx == index % w,
                            cy == index / w,
                    ;
                    assert(updated == saturated(hits(after, index as int)));
                    assert forall|i: int| 0 <= i < density@.len() implies #[trigger] density@[i]
                        == saturated(hits(after, i)) by {
                        assert(hits(after, i) == hits(before, i) + if lands_on(after.last(), i) {
                            1nat
                        } else {
                            0nat
                        });
                        assert(dens_before[i] == saturated(hits(before, i)));
                    }
                    assert forall|x: int, y: int| #[trigger] field.pixel(x, y) == if 0 <= x < width
                        && 0 <= y < height && hits(after, y * width + x) > 0 {
                        Some(density_color_of(saturated(hits(after, y * width + x))))
                    } else {
                        None
                    } by {
                        assert(field_before.pixel(x, y) == if 0 <= x < width && 0 <= y < height
                            && hits(before, y * width + x) > 0 {
                            Some(density_color_of(saturated(hits(before, y * width + x))))
                        } else {
                            None
                        });
                        if 0 <= x < width && 0 <= y < height {
                            lemma_grid_index(x, y, width as int, height as int);
                            let c = y * width + x;
                            assert(hits(after, c) == hits(before, c) + if lands_on(after.last(), c) {
                                1nat
                            } else {
                                0nat
                            });
                            if c == index {
                                lemma_grid_index_unique(x, y, cx, cy, width as int);
                            } else if x == cx && y == cy {
                            }
                        }
                    }
                }
            },
        }
        k = k + 1;
    }
    proof {
        assert(samples@.take(k as int) =~= samples@);
    }
}

fn field_width(field: &HalfBlockField) -> (width: usize)
    ensures
        width == field.width(),
{
    field.columns()
}

/// `count` draws below `length`, in order, and the generator state after.
pub open spec fn draws(seed: u64, length: nat, count: nat) -> (Seq<usize>, u64)
    decreases count,
{
    if count == 0 {
        (Seq::empty(), seed)
    } else {
        let (earlier, s) = draws(seed, length, (count - 1) as nat);
        (earlier.push(scaled_index(lcg_step(s) >> 33, length) as usize), lcg_step(s))
    }
}

/// Each particle's friend and enemy: first every friend is drawn, then every enemy.
pub open spec fn relations_spec(count: nat, seed: u64) -> (Seq<(usize, usize)>, u64) {
    let (friends, s) = draws(seed, count, count);
    let (enemies, t) = draws(s, count, count);
    (Seq::new(count, |i: int| (friends[i], enemies[i])), t)
}

fn draw_many(seed: &mut u64, length: usize, count: usize) -> (picks: Vec<usize>)
    ensures
        (picks@, *final(seed)) == draws(*old(seed), length as nat, count as nat),
{
    let ghost start = *seed;
    let mut picks: Vec<usize> = Vec::new();
    let mut i: usize = 0;
    while i < count
        invariant
            i <= count,
            (picks@, *seed) == draws(start, length as nat, i as nat),
        decreases count - i,
    {
        let pick = seeded_index(seed, length);
        picks.push(pick);
        i = i + 1;
    }
    picks
}

/// Draws a friend and an enemy for each of `count` particles.
pub fn draw_relations(count: usize, seed: &mut u64) -> (relations: Vec<(usize, usize)>)
    ensures
        (relations@, *final(seed)) == relations_spec(count as nat, *old(seed)),
{
    let friends = draw_many(seed, count, count);
    let enemies = draw_many(seed, count, count);
    let mut relations: Vec<(usize, usize)> = Vec::new();
    let mut i: usize = 0;
    proof {
        let (f, s) = draws(*old(seed), count as nat, count as nat);
        assert(f.len() == count) by {
            lemma_draws_len(*old(seed), count as nat, count as nat);
        }
        lemma_draws_len(s, count as nat, count as nat);
    }
    while i < count
        invariant
            i <= count,
            friends@.len() == count,
            enemies@.len() == count,
            relations@ == Seq::new(i as nat, |j: int| (friends@[j], enemies@[j])),
        decreases count - i,
    {
        relations.push((friends[i], enemies[i]));
        i = i + 1;
        proof {
            assert(relations@ =~= Seq::new(i as nat, |j: int| (friends@[j], enemies@[j])));
        }
    }
    relations
}

proof fn lemma_draws_len(seed: u64, length: nat, count: nat)
    ensures
        draws(seed, length, count).0.len() == count,
    decreases count,
{
    if count > 0 {
        lemma_draws_len(seed, length, (count - 1) as nat);
    }
}

/// One step of rewiring: three times in four, one particle (drawn) gets a new
/// friend and enemy (drawn in that order).
pub open spec fn rewire_spec(relations: Seq<(usize, usize)>, seed: u64) -> (Seq<(usize, usize)>, u64) {
    let s1 = lcg_step(seed);
    if scaled_index(s1 >> 33, 4) == 0 {
        (relations, s1)
    } else {
        let n = relations.len();
        let s2 = lcg_step(s1);
        let s3 = lcg_step(s2);
        let s4 = lcg_step(s3);
        let particle = scaled_index(s2 >> 33, n);
        let friend = scaled_index(s3 >> 33, n) as usize;
        let enemy = scaled_index(s4 >> 33, n) as usize;
        (relations.update(particle as int, (friend, enemy)), s4)
    }
}

/// Possibly gives one particle a new friend and enemy.
pub fn rewire(relations: &mut Vec<(usize, usize)>, seed: &mut u64)
    requires
        old(relations)@.len() > 0 || scaled_index(lcg_step(*old(seed)) >> 33, 4) == 0,
    ensures
        (final(relations)@, *final(seed)) == rewire_spec(old(relations)@, *old(seed)),
{
    if seeded_index(seed, 4) != 0 {
        let n = relations.len();
        let particle = seeded_index(seed, n);
        let friend = seeded_index(seed, n);
        let enemy = seeded_index(seed, n);
        relations.set(particle, (friend, enemy));
    }
}

} // verus!
