use vstd::prelude::*;

verus! {

/// The sum of a list of cell coordinates.
pub open spec fn coordinate_sum(cells: Seq<i64>) -> int
    decreases cells.len(),
{
    if cells.len() == 0 {
        0
    } else {
        coordinate_sum(cells.drop_last()) + cells.last()
    }
}

/// Whether the checkerboard cell with integer coordinates `cells` takes the
/// even texture: its coordinates add up to an even number. The parity is
/// tracked coordinate by coordinate, so no sum can overflow.
pub fn is_even_cell(cells: &Vec<i64>) -> (r: bool)
    ensures
        r == (coordinate_sum(cells@) % 2 == 0),
{
    let mut odd = false;
    let mut i: usize = 0;
    while i < cells.len()
        invariant
            i <= cells@.len(),
            odd == (coordinate_sum(cells@.subrange(0, i as int)) % 2 != 0),
        decreases cells@.len() - i,
    {
        proof {
            assert(cells@.subrange(0, i + 1).drop_last() =~= cells@.subrange(0, i as int));
        }
        if cells[i] % 2 != 0 {
            odd = !odd;
        }
        i = i + 1;
    }
    assert(cells@.subrange(0, i as int) =~= cells@);
    !odd
}

} // verus!
