//! The set of trails on the grid and the per-frame update: trails that have
//! scrolled away are replaced in their slot, then every trail moves down.
use crate::config::Config;
use crate::trail::{advanced, live, spawned, visible, Trail};
use vstd::prelude::*;

verus! {

/// How many trails a `term_size = (width, height)` grid holds: one per
/// `density` cells, rounded down.
pub open spec fn trail_count(term_size: (u16, u16), density: u32) -> int
    recommends
        density > 0,
{
    (term_size.0 * term_size.1) / (density as int)
}

/// `t` is a trail that was spawned on the grid and then moved once.
pub open spec fn respawned(t: Trail, term_size: (u16, u16)) -> bool {
    exists|s: Trail| #[trigger] spawned(s, term_size) && t == advanced(s)
}

/// Everything the rain needs between frames.
pub struct State {
    /// The trails, one per slot; slots are overwritten, never added or
    /// removed.
    pub trails: Vec<Trail>,
    /// Width and height of the grid, in cells.
    pub term_size: (u16, u16),
    /// The parameters the rain was started with.
    pub config: Config,
}

impl State {
    /// A usable state: a usable configuration, one trail per `density`
    /// cells, each of them on the grid and in range.
    pub open spec fn wf(&self) -> bool {
        &&& self.config.wf()
        &&& self.trails@.len() == trail_count(self.term_size, self.config.trail_density)
        &&& self.trails@.len() > 0 ==> self.term_size.0 >= 1 && self.term_size.1 >= 1
        &&& forall|i: int| 0 <= i < self.trails@.len() ==> live(#[trigger] self.trails@[i], self.term_size)
    }

    /// A state with `trail_count(term_size, density)` trails, each drawn at
    /// random on the grid.
    pub fn new(term_size: (u16, u16), config: Config, rng: &mut rand::rngs::StdRng) -> (s: State)
        requires
            config.wf(),
        ensures
            s.wf(),
            s.term_size == term_size,
            s.config == config,
            forall|i: int| 0 <= i < s.trails@.len() ==> spawned(#[trigger] s.trails@[i], term_size),
    {
        proof {
            lemma_count_needs_cells(term_size, config.trail_density);
        }
        let cells: u32 = term_size.0 as u32 * term_size.1 as u32;
        let num_trails: u32 = cells / config.trail_density;
        let mut trails: Vec<Trail> = Vec::new();
        let mut i: u32 = 0;
        while i < num_trails
            invariant
                i <= num_trails,
                num_trails as int == trail_count(term_size, config.trail_density),
                num_trails > 0 ==> term_size.0 >= 1 && term_size.1 >= 1,
                trails@.len() == i,
                forall|j: int| 0 <= j < i ==> spawned(#[trigger] trails@[j], term_size),
            decreases num_trails - i,
        {
            trails.push(Trail::random(term_size, rng));
            i = i + 1;
        }
        State { trails, term_size, config }
    }
}

proof fn lemma_count_needs_cells(term_size: (u16, u16), density: u32)
    requires
        density > 0,
    ensures
        trail_count(term_size, density) > 0 ==> term_size.0 >= 1 && term_size.1 >= 1,
        0 <= trail_count(term_size, density) <= u32::MAX,
        0 <= term_size.0 * term_size.1 <= u32::MAX,
{
    let w = term_size.0 as int;
    let h = term_size.1 as int;
    let d = density as int;
    assert(0 <= w * h <= 65535 * 65535) by (nonlinear_arith)
        requires
            0 <= w <= 65535,
            0 <= h <= 65535,
    ;
    assert((w * h) / d <= w * h) by {
        vstd::arithmetic::div_mod::lemma_div_is_ordered_by_denominator(w * h, 1, d);
    }
    if w == 0 || h == 0 {
        assert(w * h == 0) by (nonlinear_arith)
            requires
                w == 0 || h == 0,
        ;
    }
}

/// Advances the rain by one frame, in two passes over the slots. First every
/// trail that has scrolled past the bottom is replaced in its slot by one
/// drawn at random; then every trail, a replaced one too, moves down by its
/// speed.
pub fn tick(state: &mut State, rng: &mut rand::rngs::StdRng)
    requires
        old(state).wf(),
    ensures
        final(state).wf(),
        final(state).term_size == old(state).term_size,
        final(state).config == old(state).config,
        final(state).trails@.len() == old(state).trails@.len(),
        forall|i: int|
            0 <= i < old(state).trails@.len() && visible(#[trigger] old(state).trails@[i], old(state).term_size.1)
                ==> final(state).trails@[i] == advanced(old(state).trails@[i]),
        forall|i: int|
            0 <= i < old(state).trails@.len() && !visible(#[trigger] old(state).trails@[i], old(state).term_size.1)
                ==> respawned(final(state).trails@[i], old(state).term_size),
{
    let ghost before = state.trails@;
    let ghost config = state.config;
    let term_size = state.term_size;
    // Replace trails that have scrolled away.
    let n = state.trails.len();
    let mut i: usize = 0;
    while i < n
        invariant
            0 <= i <= n,
            n == before.len(),
            state.term_size == term_size,
            state.config == config,
            state.trails@.len() == n,
            n > 0 ==> term_size.0 >= 1 && term_size.1 >= 1,
            forall|j: int| i <= j < n ==> #[trigger] state.trails@[j] == before[j],
            forall|j: int|
                0 <= j < i && visible(#[trigger] before[j], term_size.1) ==> state.trails@[j] == before[j],
            forall|j: int|
                0 <= j < i && !visible(#[trigger] before[j], term_size.1) ==> spawned(state.trails@[j], term_size),
        decreases n - i,
    {
        if !state.trails[i].is_visible(term_size) {
            let fresh = Trail::random(term_size, rng);
            state.trails.set(i, fresh);
        }
        i = i + 1;
    }
    let ghost middle = state.trails@;
    // Move every trail down.
    let mut k: usize = 0;
    while k < n
        invariant
            0 <= k <= n,
            n == before.len(),
            middle.len() == n,
            state.term_size == term_size,
            state.config == config,
            state.trails@.len() == n,
            forall|j: int| k <= j < n ==> #[trigger] state.trails@[j] == middle[j],
            forall|j: int| 0 <= j < k ==> #[trigger] state.trails@[j] == advanced(middle[j]),
            forall|j: int|
                0 <= j < n && visible(#[trigger] before[j], term_size.1) ==> middle[j] == before[j],
            forall|j: int|
                0 <= j < n && !visible(#[trigger] before[j], term_size.1) ==> spawned(middle[j], term_size),
            forall|j: int| 0 <= j < n ==> live(#[trigger] before[j], term_size),
        decreases n - k,
    {
        let mut t = state.trails[k];
        proof {
            assert(visible(before[k as int], term_size.1) || !visible(before[k as int], term_size.1));
            assert(live(before[k as int], term_size));
        }
        t.advance();
        state.trails.set(k, t);
        k = k + 1;
    }
    proof {
        assert forall|j: int| 0 <= j < n implies live(#[trigger] state.trails@[j], term_size) by {
            assert(visible(before[j], term_size.1) || !visible(before[j], term_size.1));
            assert(live(before[j], term_size));
        }
        assert forall|j: int| 0 <= j < n && !visible(#[trigger] before[j], term_size.1) implies respawned(
            state.trails@[j],
            term_size,
        ) by {
            assert(spawned(middle[j], term_size));
        }
    }
}

} // verus!
