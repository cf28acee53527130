//! Timing and population size for the Physarum trail network.

use vstd::prelude::*;

verus! {

pub const PHYSARUM_STYLE: &'static str = "physarum";

/// The agent ceiling.
pub const MAX_AGENTS: usize = 6_000;

/// Milliseconds between Physarum frames.
pub fn physarum_frame_delay() -> (millis: u64)
    ensures
        millis == 40,
{
    40
}

/// `width * height` saturated at `usize::MAX`.
pub open spec fn saturating_area(width: nat, height: nat) -> nat {
    if width * height > usize::MAX {
        usize::MAX as nat
    } else {
        width * height
    }
}

/// One agent per eight cells of the (saturated) area, rounded up, at most
/// `MAX_AGENTS`.
pub fn agent_count(width: usize, height: usize) -> (count: usize)
    ensures
        count == if (saturating_area(width as nat, height as nat) + 7) / 8 < MAX_AGENTS {
            (saturating_area(width as nat, height as nat) + 7) / 8
        } else {
            MAX_AGENTS as nat
        },
{
    let area = width.checked_mul(height).unwrap_or(usize::MAX);
    let agents = area / 8 + if area % 8 == 0 {
        0
    } else {
        1
    };
    if agents < MAX_AGENTS {
        agents
    } else {
        MAX_AGENTS
    }
}


/// The first free cell met going from `start` to the end of `occupied` and on
/// from its beginning; `None` when every cell is taken.
pub fn free_cell_from(occupied: &Vec<bool>, start: usize) -> (cell: Option<usize>)
    requires
        start < occupied@.len(),
    ensures
        cell matches Some(c) ==> c < occupied@.len() && !occupied@[c as int] && (if c >= start {
            forall|i: int| start <= i < c ==> #[trigger] occupied@[i]
        } else {
            (forall|i: int| start <= i < occupied@.len() ==> #[trigger] occupied@[i]) && (forall|
                i: int,
            |
                0 <= i < c ==> #[trigger] occupied@[i])
        }),
        cell is None ==> forall|i: int| 0 <= i < occupied@.len() ==> #[trigger] occupied@[i],
{
    let len = occupied.len();
    let mut i = start;
    while i < len
        invariant
            start <= i <= len,
            len == occupied@.len(),
            forall|j: int| start <= j < i ==> #[trigger] occupied@[j],
        decreases len - i,
    {
        if !occupied[i] {
            return Some(i);
        }
        i = i + 1;
    }
    let mut j: usize = 0;
    while j < start
        invariant
            j <= start < len,
            len == occupied@.len(),
            forall|k: int| start <= k < len ==> #[trigger] occupied@[k],
            forall|k: int| 0 <= k < j ==> #[trigger] occupied@[k],
        decreases start - j,
    {
        if !occupied[j] {
            return Some(j);
        }
        j = j + 1;
    }
    None
}

/// Moves an agent from cell `current` to cell `next` unless another agent is
/// there; says whether it moved.
pub fn claim_cell(occupied: &mut Vec<bool>, current: usize, next: usize) -> (moved: bool)
    requires
        current < old(occupied)@.len(),
        next < old(occupied)@.len(),
    ensures
        moved == !(next != current && old(occupied)@[next as int]),
        moved ==> final(occupied)@ == old(occupied)@.update(current as int, false).update(
            next as int,
            true,
        ),
        !moved ==> final(occupied)@ == old(occupied)@,
{
    if next != current && occupied[next] {
        return false;
    }
    occupied.set(current, false);
    occupied.set(next, true);
    true
}

} // verus!
