//! Cell indexing for scalar fields whose edges wrap around.

use vstd::prelude::*;

verus! {

/// `value` wrapped into `[0, extent)`.
pub open spec fn wrap(value: int, extent: int) -> int {
    value % extent
}

/// `value` wrapped into `[0, extent)`, computed without signed remainders.
fn wrap_coordinate(value: isize, extent: usize) -> (wrapped: usize)
    requires
        0 < extent <= isize::MAX,
    ensures
        wrapped == wrap(value as int, extent as int),
        wrapped < extent,
{
    if value >= 0 {
        let wrapped = (value as usize) % extent;
        proof {
            assert((value as usize) as int == value as int);
        }
        wrapped
    } else {
        let below: usize = (-(value + 1)) as usize;
        let rest = below % extent;
        let wrapped = extent - 1 - rest;
        proof {
            let a = below as int;
            let q = a / (extent as int);
            vstd::arithmetic::div_mod::lemma_fundamental_div_mod(a, extent as int);
            assert(a == -(value as int) - 1);
            assert(rest as int == a % (extent as int));
            assert(value as int == (-(q + 1)) * (extent as int) + wrapped as int) by (nonlinear_arith)
                requires
                    a == (extent as int) * q + rest as int,
                    a == -(value as int) - 1,
                    wrapped as int == extent as int - 1 - rest as int,
            ;
            vstd::arithmetic::div_mod::lemma_fundamental_div_mod_converse(
                value as int,
                extent as int,
                -(q + 1),
                wrapped as int,
            );
        }
        wrapped
    }
}

/// The index of the cell at column `x`, row `y` of a `width` x `height` field
/// whose edges wrap around: both coordinates are taken modulo the extent.
pub fn wrapped_cell(x: isize, y: isize, width: usize, height: usize) -> (index: usize)
    requires
        0 < width <= isize::MAX,
        0 < height <= isize::MAX,
        width * height <= usize::MAX,
    ensures
        index == wrap(y as int, height as int) * width + wrap(x as int, width as int),
        index < width * height,
{
    let column = wrap_coordinate(x, width);
    let row = wrap_coordinate(y, height);
    proof {
        crate::screen::lemma_grid_index(column as int, row as int, width as int, height as int);
    }
    row * width + column
}


/// The field wraps around: stepping a whole width (or height) in either
/// direction lands on the same cell.
pub proof fn lemma_wrap_periodic(value: int, extent: int)
    requires
        extent > 0,
    ensures
        wrap(value + extent, extent) == wrap(value, extent),
        wrap(value - extent, extent) == wrap(value, extent),
        0 <= wrap(value, extent) < extent,
{
    vstd::arithmetic::div_mod::lemma_mod_add_multiples_vanish(value, extent);
    vstd::arithmetic::div_mod::lemma_mod_add_multiples_vanish(value - extent, extent);
    assert(extent + value == value + extent);
}

} // verus!
