//! Timing, population, update order and palette for the primordial particles.

use vstd::prelude::*;

use crate::physarum::saturating_area;
use crate::random::{lcg_step, scaled_index, seeded_index};
use crate::screen::RgbColor;

verus! {

pub const PRIMORDIAL_STYLE: &'static str = "primordial";

pub const MAX_PARTICLES: usize = 1_200;

/// Milliseconds between primordial frames.
pub fn primordial_frame_delay() -> (millis: u64)
    ensures
        millis == 40,
{
    40
}

/// Neighbors counted on each side of a particle's heading.
#[derive(Debug, Clone, Copy, Default, PartialEq, Eq, Structural)]
pub struct Neighborhood {
    pub left: usize,
    pub right: usize,
}

impl Neighborhood {
    /// Neighbors on both sides.
    pub fn total(self) -> (total: usize)
        requires
            self.left + self.right <= usize::MAX,
        ensures
            total == self.left + self.right,
    {
        self.left + self.right
    }
}

/// One particle per twelve pixels of the (saturated) area, rounded up, kept
/// between 64 and `MAX_PARTICLES`.
pub fn particle_count(width: usize, pixel_height: usize) -> (count: usize)
    ensures
        count == if (saturating_area(width as nat, pixel_height as nat) + 11) / 12 < 64 {
            64
        } else if (saturating_area(width as nat, pixel_height as nat) + 11) / 12 > MAX_PARTICLES {
            MAX_PARTICLES as nat
        } else {
            (saturating_area(width as nat, pixel_height as nat) + 11) / 12
        },
{
    let area = width.checked_mul(pixel_height).unwrap_or(usize::MAX);
    let count = area / 12 + if area % 12 == 0 {
        0
    } else {
        1
    };
    if count < 64 {
        64
    } else if count > MAX_PARTICLES {
        MAX_PARTICLES
    } else {
        count
    }
}

pub open spec fn swapped<T>(s: Seq<T>, i: int, j: int) -> Seq<T> {
    s.update(i, s[j]).update(j, s[i])
}

/// The state of a Fisher-Yates shuffle of `order` from `seed` after handling
/// positions `len - 1` down to `len - steps`, and the generator state after.
pub open spec fn shuffle_steps<T>(order: Seq<T>, seed: u64, steps: nat) -> (Seq<T>, u64)
    decreases steps,
{
    if steps == 0 || order.len() < 2 {
        (order, seed)
    } else {
        let (partial, s) = shuffle_steps(order, seed, (steps - 1) as nat);
        let end = order.len() - steps;
        if end >= 1 {
            let pick = scaled_index(lcg_step(s) >> 33, (end + 1) as nat);
            (swapped(partial, end, pick as int), lcg_step(s))
        } else {
            (partial, s)
        }
    }
}

/// Swapping two entries keeps the same entries.
pub proof fn lemma_swap_multiset<T>(s: Seq<T>, i: int, j: int)
    requires
        0 <= i < s.len(),
        0 <= j < s.len(),
    ensures
        swapped(s, i, j).to_multiset() == s.to_multiset(),
{
    broadcast use vstd::multiset::group_multiset_properties;

    let t = s.update(i, s[j]);
    vstd::seq_lib::to_multiset_update(s, i, s[j]);
    vstd::seq_lib::to_multiset_update(t, j, s[i]);
    assert(t[j] == s[j]);
    let m = s.to_multiset();
    vstd::seq_lib::lemma_seq_contains(s, s[i]);
    assert(s.contains(s[i]));
    vstd::seq_lib::to_multiset_contains(s, s[i]);
    assert(m.count(s[i]) > 0);
    assert(m.insert(s[j]).remove(s[i]).insert(s[i]) =~= m.insert(s[j]));
    assert(m.insert(s[j]).remove(s[j]) =~= m);
    assert(swapped(s, i, j).to_multiset() =~= s.to_multiset());
}

/// Shuffles `order` in place with the generator, drawing one swap partner for
/// each position from the last down to the second.
pub fn shuffle<T: Copy>(order: &mut Vec<T>, seed: &mut u64)
    ensures
        (final(order)@, *final(seed)) == shuffle_steps(old(order)@, *old(seed), (if old(
            order,
        )@.len() >= 1 {
            old(order)@.len() - 1
        } else {
            0
        }) as nat),
        final(order)@.to_multiset() == old(order)@.to_multiset(),
{
    let len = order.len();
    if len < 2 {
        return ;
    }
    let ghost untouched = order@;
    let ghost start = *seed;
    let mut end = len - 1;
    while end >= 1
        invariant
            len == untouched.len(),
            len >= 2,
            end < len,
            order@.len() == len,
            (order@, *seed) == shuffle_steps(untouched, start, (len - 1 - end) as nat),
            order@.to_multiset() == untouched.to_multiset(),
        decreases end,
    {
        let pick = seeded_index(seed, end + 1);
        let a = order[end];
        let b = order[pick];
        let ghost before = order@;
        order.set(end, b);
        order.set(pick, a);
        proof {
            assert(order@ =~= swapped(before, end as int, pick as int));
            lemma_swap_multiset(before, end as int, pick as int);
            assert((len - 1 - (end - 1)) as nat == (len - 1 - end) as nat + 1);
        }
        end = end - 1;
    }
}

/// The color of a particle with `neighbors` close neighbors.
pub fn particle_color(neighbors: usize) -> (color: RgbColor)
    ensures
        color == if neighbors <= 5 {
            RgbColor { red: 0, green: 120, blue: 95 }
        } else if neighbors <= 12 {
            RgbColor { red: 0, green: 220, blue: 175 }
        } else if neighbors <= 15 {
            RgbColor { red: 210, green: 95, blue: 55 }
        } else if neighbors <= 35 {
            RgbColor { red: 30, green: 150, blue: 255 }
        } else {
            RgbColor { red: 255, green: 225, blue: 80 }
        },
{
    if neighbors <= 5 {
        RgbColor::new(0, 120, 95)
    } else if neighbors <= 12 {
        RgbColor::new(0, 220, 175)
    } else if neighbors <= 15 {
        RgbColor::new(210, 95, 55)
    } else if neighbors <= 35 {
        RgbColor::new(30, 150, 255)
    } else {
        RgbColor::new(255, 225, 80)
    }
}


/// Which way a particle turns on top of its half turn: toward the side with
/// more neighbors (`1` right, `-1` left), or straight on a tie.
pub fn turn_direction(left: usize, right: usize) -> (direction: i8)
    ensures
        direction == if right < left {
            -1i8
        } else if right == left {
            0i8
        } else {
            1i8
        },
{
    if right < left {
        -1
    } else if right == left {
        0
    } else {
        1
    }
}

} // verus!
