//! A single falling trail: its position, length and speed, how it is spawned
//! at random, when it has scrolled away, and how it moves.
use crate::random::gen_range;
use vstd::prelude::*;

verus! {

/// A trail is at most `MAX_LEN - 1` cells long.
pub const MAX_LEN: usize = 12;

/// A trail moves at most `MAX_SPEED - 1` rows per frame.
pub const MAX_SPEED: i32 = 3;

/// Shortest length of a trail.
pub const MIN_LEN: usize = 3;

/// A character cell of the terminal, counted from 1. A trail's row may run
/// past the bottom of the grid while it scrolls away.
#[derive(Debug, Clone, Copy, PartialEq, Eq, Structural)]
pub struct TermPos {
    pub x: u16,
    pub y: u32,
}

/// A vertical run of `len` cells that ends at `bottom` and reaches upwards,
/// falling by `speed` rows per frame.
#[derive(Debug, Clone, Copy, PartialEq, Eq, Structural)]
pub struct Trail {
    pub bottom: TermPos,
    pub len: usize,
    pub speed: i32,
}

/// The trail has not yet scrolled past the bottom of a grid `height` rows
/// high: its top, `bottom.y - len`, lies above the last row.
pub open spec fn visible(t: Trail, height: u16) -> bool {
    t.bottom.y - t.len < height
}

/// The trail moved down by its speed.
pub open spec fn advanced(t: Trail) -> Trail {
    Trail { bottom: TermPos { x: t.bottom.x, y: (t.bottom.y + t.speed) as u32 }, ..t }
}

/// Length and speed lie in the ranges that spawning draws from.
pub open spec fn shape_ok(t: Trail) -> bool {
    &&& MIN_LEN <= t.len < MAX_LEN
    &&& 1 <= t.speed < MAX_SPEED
}

/// What a freshly spawned trail satisfies on a `term_size = (width, height)`
/// grid: its cell lies on the grid (both ends included), and its length and
/// speed are in range.
pub open spec fn spawned(t: Trail, term_size: (u16, u16)) -> bool {
    &&& 1 <= t.bottom.x <= term_size.0
    &&& 1 <= t.bottom.y <= term_size.1
    &&& shape_ok(t)
}

/// What holds of every trail of a running simulation: the spawn ranges,
/// except that the row may have moved past the bottom, by less than a full
/// length plus one more step.
pub open spec fn live(t: Trail, term_size: (u16, u16)) -> bool {
    &&& 1 <= t.bottom.x <= term_size.0
    &&& 1 <= t.bottom.y < term_size.1 + MAX_LEN + MAX_SPEED
    &&& shape_ok(t)
}

impl Trail {
    /// A trail with its bottom cell at `(x, y)`.
    pub fn new(x: u16, y: u32, len: usize, speed: i32) -> (t: Trail)
        ensures
            t == (Trail { bottom: TermPos { x, y }, len, speed }),
    {
        Trail { bottom: TermPos { x, y }, speed, len }
    }

    /// A trail drawn at random on a `term_size = (width, height)` grid: `x`
    /// in `[1, width]`, `y` in `[1, height]`, the length in
    /// `[MIN_LEN, MAX_LEN)` and the speed in `[1, MAX_SPEED)`.
    pub fn random(term_size: (u16, u16), rng: &mut rand::rngs::StdRng) -> (t: Trail)
        requires
            term_size.0 >= 1,
            term_size.1 >= 1,
        ensures
            spawned(t, term_size),
    {
        let x = gen_range(rng, 1, term_size.0 as u64 + 1);
        let y = gen_range(rng, 1, term_size.1 as u64 + 1);
        let len = gen_range(rng, MIN_LEN as u64, MAX_LEN as u64);
        let speed = gen_range(rng, 1, MAX_SPEED as u64);
        Trail::new(x as u16, y as u32, len as usize, speed as i32)
    }

    /// Whether the trail has not yet scrolled past the bottom of the grid.
    pub fn is_visible(&self, term_size: (u16, u16)) -> (r: bool)
        ensures
            r == visible(*self, term_size.1),
    {
        let y: usize = self.bottom.y as usize;
        if self.len > y {
            true
        } else {
            y - self.len < term_size.1 as usize
        }
    }

    /// Moves the trail down by its speed.
    pub fn advance(&mut self)
        requires
            old(self).speed >= 0,
            old(self).bottom.y + old(self).speed <= u32::MAX,
        ensures
            *final(self) == advanced(*old(self)),
    {
        self.bottom.y = self.bottom.y + self.speed as u32;
    }
}

} // verus!
