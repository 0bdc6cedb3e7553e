use crate::field::{glyph, lemma_text_layout, Field};
use rand::Rng;
use vstd::prelude::*;

verus! {

/// Relies on rand's `thread_rng().gen_range(0..n)`: a value drawn from `0..n`,
/// which is non-empty.
#[verifier::external_body]
fn random_below(n: u16) -> (r: u16)
    requires
        n > 0,
    ensures
        r < n,
{
    rand::thread_rng().gen_range(0..n)
}

/// Whether some entry of `picks` names the cell `(x, y)`.
pub open spec fn picked(picks: Seq<(u16, u16)>, x: int, y: int) -> bool {
    exists|i: int| 0 <= i < picks.len() && #[trigger] picks[i].0 as int == x && picks[i].1 as int == y
}

/// The entries of `picks` as integer coordinates.
pub open spec fn spots(picks: Seq<(u16, u16)>) -> Seq<(int, int)> {
    picks.map_values(|p: (u16, u16)| (p.0 as int, p.1 as int))
}

/// Game of Life simulation: the current generation and a scratch grid of the
/// same size that receives the next one.
pub struct Life {
    current: Field,
    next: Field,
    width: u16,
    height: u16,
}

impl Life {
    /// Both grids are well formed and share the recorded dimensions.
    pub closed spec fn wf(&self) -> bool {
        &&& self.current.wf()
        &&& self.next.wf()
        &&& self.current.spec_width() == self.width as int
        &&& self.current.spec_height() == self.height as int
        &&& self.next.spec_width() == self.width as int
        &&& self.next.spec_height() == self.height as int
    }

    /// A well-formed simulation holds two well-formed grids of the same size.
    pub proof fn lemma_wf(&self)
        requires
            self.wf(),
        ensures
            self.generation().wf(),
            self.scratch().wf(),
            self.scratch().spec_width() == self.generation().spec_width(),
            self.scratch().spec_height() == self.generation().spec_height(),
    {
    }

    /// The current generation.
    pub closed spec fn generation(&self) -> Field {
        self.current
    }

    /// The grid that the next step writes into.
    pub closed spec fn scratch(&self) -> Field {
        self.next
    }

    /// Starts a simulation of the given size: `width * height / 4` cells are drawn
    /// at random, with replacement, and made alive. Repeated draws collapse, so at
    /// most that many cells are alive.
    pub fn new(width: u16, height: u16) -> (r: Life)
        requires
            width > 0,
            height > 0,
        ensures
            r.wf(),
            r.generation().spec_width() == width as int,
            r.generation().spec_height() == height as int,
            r.scratch().spec_width() == width as int,
            r.scratch().spec_height() == height as int,
            exists|picks: Seq<(u16, u16)>|
                picks.len() == (width as int * height as int) / 4 && (forall|i: int|
                    0 <= i < picks.len() ==> #[trigger] picks[i].0 < width && picks[i].1 < height)
                    && r.generation().live_cells() == #[trigger] spots(picks).to_set(),
            r.generation().live_cells().finite(),
            r.generation().live_cells().len() <= (width as int * height as int) / 4,
            forall|x: int, y: int|
                r.scratch().in_bounds(x, y) ==> !#[trigger] r.scratch().cell(x, y),
    {
        assert(width as u32 * height as u32 <= 0xffff * 0xffff) by (nonlinear_arith)
            requires
                width <= 0xffff,
                height <= 0xffff,
        ;
        let draws: u32 = (width as u32 * height as u32) / 4;
        let mut picks: Vec<(u16, u16)> = Vec::new();
        let mut k: u32 = 0;
        while k < draws
            invariant
                width > 0,
                height > 0,
                k <= draws,
                picks@.len() == k as nat,
                forall|i: int| 0 <= i < picks@.len() ==> #[trigger] picks@[i].0 < width && picks@[i].1 < height,
            decreases draws - k,
        {
            let x = random_below(width);
            let y = random_below(height);
            picks.push((x, y));
            k = k + 1;
        }
        let r = Life::seeded(width, height, &picks);
        proof {
            broadcast use vstd::seq_lib::seq_to_set_is_finite;
            spots(picks@).lemma_cardinality_of_set();
            assert(r.generation().live_cells() == spots(picks@).to_set());
        }
        r
    }

    /// Advances one generation: every cell of the scratch grid receives the rule's
    /// verdict on the current grid, then the two grids trade roles.
    pub fn step(&mut self)
        requires
            old(self).wf(),
        ensures
            final(self).wf(),
            final(self).generation().is_next_of(old(self).generation()),
            final(self).scratch() == old(self).generation(),
    {
        let ghost prev = self.current;
        let mut y: u16 = 0;
        while y < self.height
            invariant
                self.wf(),
                self.current == prev,
                y <= self.height,
                forall|i: int, j: int|
                    0 <= i < self.width && 0 <= j < y ==> #[trigger] self.next.cell(i, j)
                        == prev.next_state(i, j),
            decreases self.height - y,
        {
            let mut x: u16 = 0;
            while x < self.width
                invariant
                    self.wf(),
                    self.current == prev,
                    y < self.height,
                    x <= self.width,
                    forall|i: int, j: int|
                        0 <= i < self.width && 0 <= j < y ==> #[trigger] self.next.cell(i, j)
                            == prev.next_state(i, j),
                    forall|i: int| 0 <= i < x ==> #[trigger] self.next.cell(i, y as int) == prev.next_state(i, y as int),
                decreases self.width - x,
            {
                let alive = self.current.next(x as i32, y as i32);
                self.next.set(x, y, alive).unwrap();
                x = x + 1;
            }
            y = y + 1;
        }
        std::mem::swap(&mut self.current, &mut self.next);
    }

    /// Draws the current generation as text: one line per row, top row first,
    /// with `*` for a live cell and a space for a dead one, each line ending in
    /// a line break.
    pub fn render(&self) -> (r: String)
        requires
            self.wf(),
        ensures
            r@ == self.generation().text(),
            r@.len() == self.generation().spec_height() * (self.generation().spec_width() + 1),
            forall|x: int, y: int|
                self.generation().in_bounds(x, y) ==> r@[#[trigger] self.generation().pos(x, y)]
                    == glyph(self.generation().cell(x, y)),
            forall|y: int|
                0 <= y < self.generation().spec_height() ==> r@[#[trigger] self.generation().pos(
                    self.generation().spec_width(),
                    y,
                )] == '\n',
    {
        let mut out = String::new();
        let mut y: u16 = 0;
        while y < self.height
            invariant
                self.wf(),
                y <= self.height,
                out@ == self.current.rows_text(y as int),
            decreases self.height - y,
        {
            let mut x: u16 = 0;
            while x < self.width
                invariant
                    self.wf(),
                    y < self.height,
                    x <= self.width,
                    out@ == self.current.rows_text(y as int) + self.current.row_text(y as int).take(
                        x as int,
                    ),
                decreases self.width - x,
            {
                let live = self.current.is_alive(x as i32, y as i32);
                proof {
                    reveal_strlit("*");
                    reveal_strlit(" ");
                    self.current.lemma_alive_at_in_bounds(x as int, y as int);
                }
                if live {
                    out.append("*");
                } else {
                    out.append(" ");
                }
                assert(self.current.row_text(y as int).take(x + 1) =~= self.current.row_text(
                    y as int,
                ).take(x as int).push(glyph(live)));
                assert(out@ =~= self.current.rows_text(y as int) + self.current.row_text(
                    y as int,
                ).take(x + 1));
                x = x + 1;
            }
            proof {
                reveal_strlit("\n");
            }
            out.append("\n");
            assert(self.current.row_text(y as int) =~= self.current.row_text(y as int).take(
                self.width as int,
            ).push('\n'));
            assert(out@ =~= self.current.rows_text(y + 1));
            y = y + 1;
        }
        proof {
            lemma_text_layout(self.current, self.height as int);
        }
        out
    }

    /// Starts a simulation whose live cells are exactly those that `picks` names
    /// (a cell named twice is simply alive); the scratch grid starts dead.
    pub fn seeded(width: u16, height: u16, picks: &Vec<(u16, u16)>) -> (r: Life)
        requires
            width > 0,
            height > 0,
            forall|i: int| 0 <= i < picks@.len() ==> #[trigger] picks@[i].0 < width && picks@[i].1 < height,
        ensures
            r.wf(),
            r.generation().spec_width() == width as int,
            r.generation().spec_height() == height as int,
            forall|x: int, y: int|
                r.generation().in_bounds(x, y) ==> #[trigger] r.generation().cell(x, y) == picked(
                    picks@,
                    x,
                    y,
                ),
            r.generation().live_cells() == spots(picks@).to_set(),
            r.scratch().spec_width() == width as int,
            r.scratch().spec_height() == height as int,
            forall|x: int, y: int|
                r.scratch().in_bounds(x, y) ==> !#[trigger] r.scratch().cell(x, y),
    {
        let mut current = Field::new(width, height);
        let mut k: usize = 0;
        while k < picks.len()
            invariant
                k <= picks@.len(),
                current.wf(),
                current.spec_width() == width as int,
                current.spec_height() == height as int,
                forall|i: int| 0 <= i < picks@.len() ==> #[trigger] picks@[i].0 < width && picks@[i].1 < height,
                forall|x: int, y: int|
                    current.in_bounds(x, y) ==> #[trigger] current.cell(x, y) == picked(
                        picks@.take(k as int),
                        x,
                        y,
                    ),
            decreases picks@.len() - k,
        {
            let (x, y) = picks[k];
            current.set(x, y, true).unwrap();
            proof {
                let done = picks@.take(k as int);
                let more = picks@.take(k + 1);
                assert forall|a: int, b: int| current.in_bounds(a, b) implies #[trigger] current.cell(a, b)
                    == picked(more, a, b) by {
                    if picked(done, a, b) {
                        let i = choose|i: int| 0 <= i < done.len() && #[trigger] done[i].0 as int == a && done[i].1 as int == b;
                        assert(more[i] == done[i]);
                    }
                    if picked(more, a, b) {
                        let i = choose|i: int| 0 <= i < more.len() && #[trigger] more[i].0 as int == a && more[i].1 as int == b;
                        if i < k {
                            assert(done[i] == more[i]);
                        }
                    }
                    if a == x && b == y {
                        assert(more[k as int] == picks@[k as int]);
                    }
                }
            }
            k = k + 1;
        }
        proof {
            assert(picks@.take(picks@.len() as int) =~= picks@);
            let s = spots(picks@);
            assert forall|p: (int, int)| current.live_cells().contains(p) <==> s.to_set().contains(p) by {
                if current.live_cells().contains(p) {
                    let i = choose|i: int| 0 <= i < picks@.len() && #[trigger] picks@[i].0 as int == p.0 && picks@[i].1 as int == p.1;
                    assert(s[i] == p);
                }
                if s.to_set().contains(p) {
                    let i = choose|i: int| 0 <= i < s.len() && s[i] == p;
                    assert(picks@[i].0 < width && picks@[i].1 < height);
                    assert(picked(picks@, p.0, p.1));
                }
            }
            assert(current.live_cells() =~= s.to_set());
        }
        Life { current, next: Field::new(width, height), width, height }
    }

    /// The current generation.
    pub fn field(&self) -> (r: &Field)
        ensures
            *r == self.generation(),
    {
        &self.current
    }

    /// The number of columns.
    pub fn width(&self) -> (r: u16)
        requires
            self.wf(),
        ensures
            r as int == self.generation().spec_width(),
    {
        self.width
    }

    /// The number of rows.
    pub fn height(&self) -> (r: u16)
        requires
            self.wf(),
        ensures
            r as int == self.generation().spec_height(),
    {
        self.height
    }
}

} // verus!
