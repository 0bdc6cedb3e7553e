use vstd::arithmetic::div_mod::{
    lemma_mod_add_multiples_vanish, lemma_mod_bound, lemma_mod_twice, lemma_small_mod,
};
use vstd::prelude::*;

verus! {

/// One for a live cell, zero for a dead one.
pub open spec fn one_if(b: bool) -> int {
    if b {
        1
    } else {
        0
    }
}

/// The character that shows a cell: `*` alive, a space dead.
pub open spec fn glyph(b: bool) -> char {
    if b {
        '*'
    } else {
        ' '
    }
}

/// The picture of the first `n` rows has `n` lines, each of `width` glyphs
/// followed by a line break, and shows every cell by its glyph.
pub proof fn lemma_text_layout(f: Field, n: int)
    requires
        f.wf(),
        0 <= n <= f.spec_height(),
    ensures
        f.rows_text(n).len() == n * (f.spec_width() + 1),
        forall|x: int, y: int|
            0 <= x < f.spec_width() && 0 <= y < n ==> f.rows_text(n)[#[trigger] f.pos(x, y)]
                == glyph(f.cell(x, y)),
        forall|y: int| 0 <= y < n ==> f.rows_text(n)[#[trigger] f.pos(f.spec_width(), y)] == '\n',
    decreases n,
{
    if n > 0 {
        let w = f.spec_width();
        lemma_text_layout(f, n - 1);
        let before = f.rows_text(n - 1);
        let line = f.row_text(n - 1);
        assert((n - 1) * (w + 1) + (w + 1) == n * (w + 1)) by (nonlinear_arith);
        assert forall|x: int, y: int| 0 <= x <= w && 0 <= y < n implies f.rows_text(n)[f.pos(x, y)]
            == if x < w {
            glyph(f.cell(x, y))
        } else {
            '\n'
        } by {
            if y < n - 1 {
                assert(f.pos(x, y) < (n - 1) * (w + 1)) by (nonlinear_arith)
                    requires
                        f.pos(x, y) == y * (w + 1) + x,
                        0 <= x <= w,
                        y <= n - 2,
                ;
                assert(f.pos(x, y) >= 0) by (nonlinear_arith)
                    requires
                        f.pos(x, y) == y * (w + 1) + x,
                        0 <= x,
                        0 <= y,
                        0 <= w,
                ;
            } else {
                assert(f.rows_text(n)[f.pos(x, y)] == line[x]);
            }
        }
    }
}

/// After a step, the picture of the new generation shows, cell by cell, the
/// rule's verdict on the generation before it.
pub proof fn lemma_text_after_step(prev: Field, cur: Field)
    requires
        prev.wf(),
        cur.is_next_of(prev),
    ensures
        cur.text().len() == prev.spec_height() * (prev.spec_width() + 1),
        forall|x: int, y: int|
            prev.in_bounds(x, y) ==> cur.text()[#[trigger] cur.pos(x, y)] == glyph(
                prev.next_state(x, y),
            ),
        forall|y: int|
            0 <= y < prev.spec_height() ==> cur.text()[#[trigger] cur.pos(prev.spec_width(), y)]
                == '\n',
{
    lemma_text_layout(cur, cur.spec_height());
    assert forall|x: int, y: int| prev.in_bounds(x, y) implies cur.text()[#[trigger] cur.pos(x, y)]
        == glyph(prev.next_state(x, y)) by {
        assert(cur.cell(x, y) == prev.next_state(x, y));
    }
}

/// A fixed-size grid of cells, each alive or dead.
///
/// Reads wrap around both edges (the grid is a torus); writes are bounds-checked.
pub struct Field {
    cells: Vec<Vec<bool>>,
    width: u16,
    height: u16,
}

impl Field {
    /// The grid has positive dimensions and one row of `width` cells per line.
    pub closed spec fn wf(&self) -> bool {
        &&& self.width > 0
        &&& self.height > 0
        &&& self.cells@.len() == self.height as nat
        &&& forall|y: int| 0 <= y < self.height ==> (#[trigger] self.cells@[y])@.len() == self.width as nat
    }

    pub closed spec fn spec_width(&self) -> int {
        self.width as int
    }

    pub closed spec fn spec_height(&self) -> int {
        self.height as int
    }

    /// The state of the cell at column `x`, row `y` (meaningful inside the grid).
    pub closed spec fn cell(&self, x: int, y: int) -> bool {
        self.cells@[y]@[x]
    }

    /// Whether `(x, y)` lies inside the grid.
    pub open spec fn in_bounds(&self, x: int, y: int) -> bool {
        0 <= x < self.spec_width() && 0 <= y < self.spec_height()
    }

    /// Creates a grid of the given size with every cell dead.
    pub fn new(width: u16, height: u16) -> (r: Self)
        requires
            width > 0,
            height > 0,
        ensures
            r.wf(),
            r.spec_width() == width as int,
            r.spec_height() == height as int,
            forall|x: int, y: int| r.in_bounds(x, y) ==> !#[trigger] r.cell(x, y),
    {
        let mut cells: Vec<Vec<bool>> = Vec::new();
        let mut j: u16 = 0;
        while j < height
            invariant
                j <= height,
                cells@.len() == j as nat,
                forall|y: int| 0 <= y < j ==> (#[trigger] cells@[y])@.len() == width as nat,
                forall|x: int, y: int|
                    0 <= y < j && 0 <= x < width ==> !(#[trigger] cells@[y]@[x]),
            decreases height - j,
        {
            let row: Vec<bool> = vec![false; width as usize];
            cells.push(row);
            j = j + 1;
        }
        Field { cells, width, height }
    }

    /// The state seen at any integer coordinates: both are reduced modulo the
    /// grid's dimensions (Euclidean remainder), so the edges wrap around.
    pub open spec fn alive_at(&self, x: int, y: int) -> bool {
        self.cell(x % self.spec_width(), y % self.spec_height())
    }

    /// Reports whether the cell at `(x, y)` is alive, wrapping both coordinates.
    pub fn is_alive(&self, x: i32, y: i32) -> (r: bool)
        requires
            self.wf(),
        ensures
            r == self.alive_at(x as int, y as int),
    {
        let cx = x.checked_rem_euclid(self.width as i32).unwrap();
        let cy = y.checked_rem_euclid(self.height as i32).unwrap();
        self.cells[cy as usize][cx as usize]
    }

    /// Sets the cell at `(x, y)` to `val`; coordinates outside the grid are refused
    /// and leave it unchanged.
    pub fn set(&mut self, x: u16, y: u16, val: bool) -> (r: Result<(), &'static str>)
        requires
            old(self).wf(),
        ensures
            final(self).wf(),
            final(self).spec_width() == old(self).spec_width(),
            final(self).spec_height() == old(self).spec_height(),
            r.is_err() <==> !old(self).in_bounds(x as int, y as int),
            r.is_err() ==> *final(self) == *old(self),
            r.is_err() ==> r == Err::<(), &'static str>("coordinates are out of bounds"),
            r.is_ok() ==> forall|i: int, j: int|
                final(self).in_bounds(i, j) ==> #[trigger] final(self).cell(i, j) == (if i == x && j == y {
                    val
                } else {
                    old(self).cell(i, j)
                }),
    {
        if x >= self.width || y >= self.height {
            return Err("coordinates are out of bounds");
        }
        self.cells[y as usize][x as usize] = val;
        Ok(())
    }

    /// The number of live cells among the eight cells around `(x, y)`, read with wrapping.
    pub open spec fn neighbors(&self, x: int, y: int) -> int {
        one_if(self.alive_at(x - 1, y - 1)) + one_if(self.alive_at(x, y - 1)) + one_if(
            self.alive_at(x + 1, y - 1),
        ) + one_if(self.alive_at(x - 1, y)) + one_if(self.alive_at(x + 1, y)) + one_if(
            self.alive_at(x - 1, y + 1),
        ) + one_if(self.alive_at(x, y + 1)) + one_if(self.alive_at(x + 1, y + 1))
    }

    /// The state of `(x, y)` in the next generation: born with exactly three live
    /// neighbors, kept with two, dead otherwise.
    pub open spec fn next_state(&self, x: int, y: int) -> bool {
        let n = self.neighbors(x, y);
        n == 3 || (n == 2 && self.alive_at(x, y))
    }

    /// Computes the next state of the cell at `(x, y)` from its eight neighbors.
    pub fn next(&self, x: i32, y: i32) -> (r: bool)
        requires
            self.wf(),
            i32::MIN < x < i32::MAX,
            i32::MIN < y < i32::MAX,
        ensures
            r == self.next_state(x as int, y as int),
            self.neighbors(x as int, y as int) == 3 ==> r,
            self.neighbors(x as int, y as int) == 2 ==> r == self.alive_at(x as int, y as int),
            self.neighbors(x as int, y as int) != 2 && self.neighbors(x as int, y as int) != 3
                ==> !r,
    {
        let mut alive_neighbors: u8 = 0;
        if self.is_alive(x - 1, y - 1) {
            alive_neighbors += 1;
        }
        if self.is_alive(x, y - 1) {
            alive_neighbors += 1;
        }
        if self.is_alive(x + 1, y - 1) {
            alive_neighbors += 1;
        }
        if self.is_alive(x - 1, y) {
            alive_neighbors += 1;
        }
        if self.is_alive(x + 1, y) {
            alive_neighbors += 1;
        }
        if self.is_alive(x - 1, y + 1) {
            alive_neighbors += 1;
        }
        if self.is_alive(x, y + 1) {
            alive_neighbors += 1;
        }
        if self.is_alive(x + 1, y + 1) {
            alive_neighbors += 1;
        }
        alive_neighbors == 3 || alive_neighbors == 2 && self.is_alive(x, y)
    }

    /// Whether `self` holds the generation that follows `prev`: same size, and
    /// every cell set to the rule's verdict on `prev`.
    pub open spec fn is_next_of(&self, prev: Field) -> bool {
        &&& self.wf()
        &&& self.spec_width() == prev.spec_width()
        &&& self.spec_height() == prev.spec_height()
        &&& forall|x: int, y: int|
            self.in_bounds(x, y) ==> #[trigger] self.cell(x, y) == prev.next_state(x, y)
    }

    /// The coordinates of the live cells inside the grid.
    pub open spec fn live_cells(&self) -> Set<(int, int)> {
        Set::new(|p: (int, int)| self.in_bounds(p.0, p.1) && self.cell(p.0, p.1))
    }

    /// One line of the picture: a glyph per cell of row `y`, then a line break.
    pub open spec fn row_text(&self, y: int) -> Seq<char> {
        Seq::new(self.spec_width() as nat, |x: int| glyph(self.cell(x, y))).push('\n')
    }

    /// The picture of the first `n` rows, top row first.
    pub open spec fn rows_text(&self, n: int) -> Seq<char>
        decreases n,
    {
        if n <= 0 {
            Seq::empty()
        } else {
            self.rows_text(n - 1) + self.row_text(n - 1)
        }
    }

    /// The picture of the whole grid.
    pub open spec fn text(&self) -> Seq<char> {
        self.rows_text(self.spec_height())
    }

    /// The position in the picture of column `x` of line `y`; column `width`
    /// holds the line break.
    pub open spec fn pos(&self, x: int, y: int) -> int {
        y * (self.spec_width() + 1) + x
    }

    /// A well-formed grid has positive dimensions that fit in `u16`.
    pub proof fn lemma_size(&self)
        requires
            self.wf(),
        ensures
            0 < self.spec_width() <= u16::MAX,
            0 < self.spec_height() <= u16::MAX,
    {
    }

    /// Inside the grid, the wrapping read is the cell itself.
    pub proof fn lemma_alive_at_in_bounds(&self, x: int, y: int)
        requires
            self.in_bounds(x, y),
        ensures
            self.alive_at(x, y) == self.cell(x, y),
    {
        lemma_small_mod(x as nat, self.spec_width() as nat);
        lemma_small_mod(y as nat, self.spec_height() as nat);
    }

    /// Reads wrap around: any coordinates see the cell at their Euclidean
    /// remainders modulo the grid's dimensions, which lie inside the grid.
    pub proof fn lemma_wrap(&self, x: int, y: int)
        requires
            self.wf(),
        ensures
            self.in_bounds(x % self.spec_width(), y % self.spec_height()),
            self.alive_at(x, y) == self.alive_at(x % self.spec_width(), y % self.spec_height()),
    {
        lemma_mod_bound(x, self.spec_width());
        lemma_mod_bound(y, self.spec_height());
        lemma_mod_twice(x, self.spec_width());
        lemma_mod_twice(y, self.spec_height());
    }

    /// One step past an edge, a read lands on the opposite edge.
    pub proof fn lemma_alive_at_near(&self, x: int, y: int)
        requires
            self.wf(),
            -1 <= x <= self.spec_width(),
            -1 <= y <= self.spec_height(),
        ensures
            self.alive_at(x, y) == self.cell(
                if x < 0 {
                    self.spec_width() - 1
                } else if x == self.spec_width() {
                    0
                } else {
                    x
                },
                if y < 0 {
                    self.spec_height() - 1
                } else if y == self.spec_height() {
                    0
                } else {
                    y
                },
            ),
    {
        let w = self.spec_width();
        let h = self.spec_height();
        lemma_mod_add_multiples_vanish(-1, w);
        lemma_mod_add_multiples_vanish(-1, h);
        lemma_mod_add_multiples_vanish(0, w);
        lemma_mod_add_multiples_vanish(0, h);
        lemma_small_mod((w - 1) as nat, w as nat);
        lemma_small_mod((h - 1) as nat, h as nat);
        lemma_small_mod(0, w as nat);
        lemma_small_mod(0, h as nat);
        if 0 <= x < w {
            lemma_small_mod(x as nat, w as nat);
        }
        if 0 <= y < h {
            lemma_small_mod(y as nat, h as nat);
        }
    }

    /// The number of columns.
    pub fn width(&self) -> (r: u16)
        ensures
            r as int == self.spec_width(),
    {
        self.width
    }

    /// The number of rows.
    pub fn height(&self) -> (r: u16)
        ensures
            r as int == self.spec_height(),
    {
        self.height
    }
}

} // verus!
