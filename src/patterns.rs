use crate::field::Field;
use vstd::prelude::*;

verus! {

/// Whether `(x, y)` belongs to the 2x2 block whose top-left cell is `(bx, by)`.
pub open spec fn in_block(bx: int, by: int, x: int, y: int) -> bool {
    bx <= x <= bx + 1 && by <= y <= by + 1
}

/// Whether `(x, y)` belongs to the horizontal bar of three cells starting at `(bx, by)`.
pub open spec fn in_row_bar(bx: int, by: int, x: int, y: int) -> bool {
    y == by && bx <= x <= bx + 2
}

/// Whether `(x, y)` belongs to the vertical bar of three cells centred on `(bx + 1, by)`,
/// the other phase of the blinker whose horizontal phase starts at `(bx, by)`.
pub open spec fn in_column_bar(bx: int, by: int, x: int, y: int) -> bool {
    x == bx + 1 && by - 1 <= y <= by + 1
}

/// Whether the live cells of `f` are exactly those of `pattern`.
pub open spec fn shows(f: Field, pattern: spec_fn(int, int) -> bool) -> bool {
    forall|x: int, y: int| f.in_bounds(x, y) ==> #[trigger] f.cell(x, y) == pattern(x, y)
}

/// Whether `pattern` keeps off the outermost rows and columns of a grid of the given size.
pub open spec fn clear_of_edges(pattern: spec_fn(int, int) -> bool, width: int, height: int) -> bool {
    forall|x: int, y: int| #[trigger] pattern(x, y) ==> 1 <= x < width - 1 && 1 <= y < height - 1
}

/// A pattern clear of the edges is read without wrapping from one step outside the grid.
proof fn lemma_reads_pattern(f: Field, pattern: spec_fn(int, int) -> bool)
    requires
        f.wf(),
        shows(f, pattern),
        clear_of_edges(pattern, f.spec_width(), f.spec_height()),
    ensures
        forall|x: int, y: int|
            -1 <= x <= f.spec_width() && -1 <= y <= f.spec_height() ==> #[trigger] f.alive_at(x, y)
                == pattern(x, y),
{
    assert forall|x: int, y: int|
        -1 <= x <= f.spec_width() && -1 <= y <= f.spec_height() implies #[trigger] f.alive_at(x, y)
        == pattern(x, y) by {
        f.lemma_alive_at_near(x, y);
        f.lemma_size();
        let wx = if x < 0 {
            f.spec_width() - 1
        } else if x == f.spec_width() {
            0
        } else {
            x
        };
        let wy = if y < 0 {
            f.spec_height() - 1
        } else if y == f.spec_height() {
            0
        } else {
            y
        };
        assert(f.cell(wx, wy) == pattern(wx, wy));
        if pattern(x, y) {
        }
        if pattern(wx, wy) {
        }
    }
}

/// A block clear of the edges is a still life: the next generation is the same block.
pub proof fn lemma_block_is_still(prev: Field, cur: Field, bx: int, by: int)
    requires
        prev.wf(),
        cur.is_next_of(prev),
        1 <= bx,
        bx + 2 < prev.spec_width(),
        1 <= by,
        by + 2 < prev.spec_height(),
        shows(prev, |x: int, y: int| in_block(bx, by, x, y)),
    ensures
        shows(cur, |x: int, y: int| in_block(bx, by, x, y)),
{
    let pattern = |x: int, y: int| in_block(bx, by, x, y);
    lemma_reads_pattern(prev, pattern);
    assert forall|x: int, y: int| cur.in_bounds(x, y) implies #[trigger] cur.cell(x, y) == pattern(
        x,
        y,
    ) by {
        assert(cur.cell(x, y) == prev.next_state(x, y));
    }
}

/// A horizontal bar of three clear of the edges turns into the vertical bar through its middle.
pub proof fn lemma_row_bar_turns(prev: Field, cur: Field, bx: int, by: int)
    requires
        prev.wf(),
        cur.is_next_of(prev),
        1 <= bx,
        bx + 3 < prev.spec_width(),
        2 <= by,
        by + 2 < prev.spec_height(),
        shows(prev, |x: int, y: int| in_row_bar(bx, by, x, y)),
    ensures
        shows(cur, |x: int, y: int| in_column_bar(bx, by, x, y)),
{
    let pattern = |x: int, y: int| in_row_bar(bx, by, x, y);
    let after = |x: int, y: int| in_column_bar(bx, by, x, y);
    lemma_reads_pattern(prev, pattern);
    assert forall|x: int, y: int| cur.in_bounds(x, y) implies #[trigger] cur.cell(x, y) == after(
        x,
        y,
    ) by {
        assert(cur.cell(x, y) == prev.next_state(x, y));
    }
}

/// A vertical bar of three clear of the edges turns back into the horizontal bar.
pub proof fn lemma_column_bar_turns(prev: Field, cur: Field, bx: int, by: int)
    requires
        prev.wf(),
        cur.is_next_of(prev),
        1 <= bx,
        bx + 3 < prev.spec_width(),
        2 <= by,
        by + 2 < prev.spec_height(),
        shows(prev, |x: int, y: int| in_column_bar(bx, by, x, y)),
    ensures
        shows(cur, |x: int, y: int| in_row_bar(bx, by, x, y)),
{
    let pattern = |x: int, y: int| in_column_bar(bx, by, x, y);
    let after = |x: int, y: int| in_row_bar(bx, by, x, y);
    lemma_reads_pattern(prev, pattern);
    assert forall|x: int, y: int| cur.in_bounds(x, y) implies #[trigger] cur.cell(x, y) == after(
        x,
        y,
    ) by {
        assert(cur.cell(x, y) == prev.next_state(x, y));
    }
}

/// The blinker oscillates with period two: two steps from a horizontal bar of
/// three clear of the edges give back the same grid.
pub proof fn lemma_blinker_period_two(first: Field, second: Field, third: Field, bx: int, by: int)
    requires
        first.wf(),
        second.is_next_of(first),
        third.is_next_of(second),
        1 <= bx,
        bx + 3 < first.spec_width(),
        2 <= by,
        by + 2 < first.spec_height(),
        shows(first, |x: int, y: int| in_row_bar(bx, by, x, y)),
    ensures
        shows(third, |x: int, y: int| in_row_bar(bx, by, x, y)),
        forall|x: int, y: int| third.in_bounds(x, y) ==> #[trigger] third.cell(x, y) == first.cell(x, y),
{
    lemma_row_bar_turns(first, second, bx, by);
    lemma_column_bar_turns(second, third, bx, by);
}

} // verus!
