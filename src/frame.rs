//! What one frame draws: for every trail, from its head upwards, a random
//! glyph in the colour of the trail's fade from bright to dim green.
use crate::gradient::{gradient_at, interpolate, Color};
use crate::random::gen_range;
use crate::simulation::State;
use crate::trail::{live, Trail};
use vstd::prelude::*;

verus! {

/// One glyph to be written at column `x`, row `y` (counted from 1), in
/// `color`.
#[derive(Debug, Clone, Copy, PartialEq, Eq, Structural)]
pub struct Cell {
    pub x: u16,
    pub y: u32,
    pub color: Color,
    pub glyph: char,
}

/// A cell without its glyph: where it goes and in which colour.
pub open spec fn spot(c: Cell) -> (u16, u32, Color) {
    (c.x, c.y, c.color)
}

/// The spots of a sequence of cells, in order.
pub open spec fn spots(cells: Seq<Cell>) -> Seq<(u16, u32, Color)> {
    cells.map_values(|c: Cell| spot(c))
}

/// How many cells of the trail lie at row 1 or below: the cells above the
/// top of the grid are not drawn.
pub open spec fn drawn_rows(t: Trail) -> nat {
    if t.bottom.y < t.len {
        t.bottom.y as nat
    } else {
        t.len as nat
    }
}

/// The fade of a trail of length `len`, from bright green at its head to
/// dim green at its tail.
pub open spec fn trail_color(len: usize, i: int) -> Color {
    gradient_at(Color { r: 0, g: 5, b: 0 }, Color { r: 0, g: 1, b: 0 }, len as u8, i)
}

/// The spots that a trail draws, from its head upwards: offset `i` goes to
/// row `bottom.y - i` in colour `i` of the fade.
pub open spec fn trail_spots(t: Trail) -> Seq<(u16, u32, Color)> {
    Seq::new(
        drawn_rows(t),
        |i: int| (t.bottom.x, (t.bottom.y - i) as u32, trail_color(t.len, i)),
    )
}

/// The spots that a frame draws: those of each trail in turn, so that a
/// later trail overwrites an earlier one.
pub open spec fn frame_spots(trails: Seq<Trail>) -> Seq<(u16, u32, Color)>
    decreases trails.len(),
{
    if trails.len() == 0 {
        Seq::empty()
    } else {
        frame_spots(trails.drop_last()) + trail_spots(trails.last())
    }
}

/// Every glyph of `cells` is one of `charset`.
pub open spec fn glyphs_from(cells: Seq<Cell>, charset: Seq<char>) -> bool {
    forall|k: int| 0 <= k < cells.len() ==> charset.contains(#[trigger] cells[k].glyph)
}

impl Trail {
    /// A glyph of `charset` picked at random.
    pub fn gen_char(charset: &Vec<char>, rng: &mut rand::rngs::StdRng) -> (c: char)
        requires
            charset@.len() > 0,
        ensures
            charset@.contains(c),
    {
        let k = gen_range(rng, 0, charset.len() as u64) as usize;
        assert(charset@[k as int] == charset[k as int]);
        charset[k]
    }

    /// The cells that the trail draws: from its head upwards, skipping the
    /// rows above the top of the grid, each with a fresh random glyph.
    pub fn render(&self, rain_charset: &Vec<char>, rng: &mut rand::rngs::StdRng) -> (r: Vec<Cell>)
        requires
            self.len <= 255,
            rain_charset@.len() > 0,
        ensures
            spots(r@) == trail_spots(*self),
            glyphs_from(r@, rain_charset@),
    {
        let interpolates = interpolate(Color::pure_green(), Color::dark_green(), self.len as u8);
        let mut cells: Vec<Cell> = Vec::new();
        let mut i: usize = 0;
        while i < self.len
            invariant
                0 <= i <= self.len,
                self.len <= 255,
                rain_charset@.len() > 0,
                interpolates@.len() == self.len,
                forall|j: int| 0 <= j < self.len ==> interpolates@[j] == trail_color(self.len, j),
                cells@.len() == if i < self.bottom.y { i as int } else { self.bottom.y as int },
                forall|j: int|
                    0 <= j < cells@.len() ==> spot(#[trigger] cells@[j]) == trail_spots(*self)[j],
                glyphs_from(cells@, rain_charset@),
            decreases self.len - i,
        {
            if (i as u64) < (self.bottom.y as u64) {
                let cell = Cell {
                    x: self.bottom.x,
                    y: self.bottom.y - i as u32,
                    color: interpolates[i],
                    glyph: Trail::gen_char(rain_charset, rng),
                };
                cells.push(cell);
            }
            i = i + 1;
        }
        assert(spots(cells@) =~= trail_spots(*self));
        cells
    }
}

/// The cells of one frame: those of each trail in turn, each with a fresh
/// random glyph of the configured charset. The caller clears the grid and
/// then writes them in order.
pub fn render(state: &State, rng: &mut rand::rngs::StdRng) -> (r: Vec<Cell>)
    requires
        state.wf(),
    ensures
        spots(r@) == frame_spots(state.trails@),
        glyphs_from(r@, state.config.rain_charset@),
        forall|k: int|
            0 <= k < r@.len() ==> 1 <= (#[trigger] r@[k]).x <= state.term_size.0 && 1 <= r@[k].y,
{
    let mut frame: Vec<Cell> = Vec::new();
    let mut k: usize = 0;
    while k < state.trails.len()
        invariant
            0 <= k <= state.trails@.len(),
            state.wf(),
            spots(frame@) == frame_spots(state.trails@.take(k as int)),
            glyphs_from(frame@, state.config.rain_charset@),
        decreases state.trails@.len() - k,
    {
        let mut cells = state.trails[k].render(&state.config.rain_charset, rng);
        proof {
            let ts = state.trails@.take(k as int + 1);
            assert(ts.drop_last() =~= state.trails@.take(k as int));
            assert(spots(frame@ + cells@) =~= spots(frame@) + spots(cells@));
        }
        frame.append(&mut cells);
        k = k + 1;
    }
    assert(state.trails@.take(state.trails@.len() as int) =~= state.trails@);
    proof {
        lemma_frame_on_grid(state.trails@, state.term_size);
        assert forall|k: int| 0 <= k < frame@.len() implies 1 <= (#[trigger] frame@[k]).x
            <= state.term_size.0 && 1 <= frame@[k].y by {
            assert(spots(frame@)[k] == spot(frame@[k]));
        }
    }
    frame
}

/// A frame of trails that lie on the grid writes only inside it horizontally
/// and never above its top row.
pub proof fn lemma_frame_on_grid(trails: Seq<Trail>, term_size: (u16, u16))
    requires
        forall|i: int| 0 <= i < trails.len() ==> live(#[trigger] trails[i], term_size),
    ensures
        forall|k: int|
            0 <= k < frame_spots(trails).len() ==> 1 <= (#[trigger] frame_spots(trails)[k]).0
                <= term_size.0 && 1 <= frame_spots(trails)[k].1,
    decreases trails.len(),
{
    if trails.len() > 0 {
        let init = trails.drop_last();
        assert forall|i: int| 0 <= i < init.len() implies live(#[trigger] init[i], term_size) by {
            assert(init[i] == trails[i]);
        }
        lemma_frame_on_grid(init, term_size);
        assert(live(trails[trails.len() - 1], term_size));
        let a = frame_spots(init);
        let b = trail_spots(trails.last());
        assert forall|k: int| 0 <= k < frame_spots(trails).len() implies 1 <= (
        #[trigger] frame_spots(trails)[k]).0 <= term_size.0 && 1 <= frame_spots(trails)[k].1 by {
            if k >= a.len() {
                assert(frame_spots(trails)[k] == b[k - a.len()]);
            } else {
                assert(frame_spots(trails)[k] == a[k]);
            }
        }
    }
}

} // verus!
