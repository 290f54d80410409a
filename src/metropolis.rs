use vstd::prelude::*;
use crate::prng::{PRNG, draw, state_after, xorshift};
use crate::lattice::{
    N, SpinConfig, valid_spins, cell, spin, neighbor_sum, neighbor_sum_at, lemma_cell_in_range,
};

verus! {

/// Acceptance of energy-raising flips at one temperature.
///
/// A flip that raises the energy by `dE` (0, 4 or 8) is accepted when the
/// drawn 32-bit value is below the limit for `dE`; a limit of 2^32 or more
/// accepts every draw and a limit of 0 none. Flips that lower the energy are
/// always accepted and draw nothing.
#[derive(Clone, Copy, Debug, PartialEq, Eq)]
pub struct AcceptanceLimits {
    /// Limit for a flip that leaves the energy unchanged.
    pub flat: u64,
    /// Limit for a flip that raises the energy by 4.
    pub rise4: u64,
    /// Limit for a flip that raises the energy by 8.
    pub rise8: u64,
}

/// The limit that governs a flip raising the energy by `de`.
pub open spec fn limit_for(l: AcceptanceLimits, de: int) -> u64 {
    if de == 0 {
        l.flat
    } else if de == 4 {
        l.rise4
    } else {
        l.rise8
    }
}

impl AcceptanceLimits {
    /// The limit that governs a flip raising the energy by `de`.
    pub fn limit(&self, de: i32) -> (r: u64)
        ensures
            r == limit_for(*self, de as int),
    {
        if de == 0 {
            self.flat
        } else if de == 4 {
            self.rise4
        } else {
            self.rise8
        }
    }
}

/// Energy change if the spin at (i, j) were flipped.
pub open spec fn delta_energy(c: Seq<i8>, i: int, j: int) -> int {
    2 * spin(c, i, j) * neighbor_sum(c, i, j)
}

/// The lattice with the spin at (i, j) reversed.
pub open spec fn flipped(c: Seq<i8>, i: int, j: int) -> Seq<i8> {
    c.update(cell(i, j), (-c[cell(i, j)]) as i8)
}

/// Row proposed by a step taken from generator state `s`.
pub open spec fn proposed_row(s: u64) -> int {
    draw(s, 1) as int % (N as int)
}

/// Column proposed by a step taken from generator state `s`.
pub open spec fn proposed_col(s: u64) -> int {
    draw(s, 2) as int % (N as int)
}

/// Whether a step from lattice `c` and generator state `s` reverses the proposed spin.
pub open spec fn step_flips(c: Seq<i8>, s: u64, l: AcceptanceLimits) -> bool {
    let de = delta_energy(c, proposed_row(s), proposed_col(s));
    de < 0 || (draw(s, 3) as int) < (limit_for(l, de) as int)
}

/// Generator state after a step: two draws when the energy falls, three otherwise.
pub open spec fn step_state(c: Seq<i8>, s: u64) -> u64 {
    if delta_energy(c, proposed_row(s), proposed_col(s)) < 0 {
        state_after(s, 2)
    } else {
        state_after(s, 3)
    }
}

/// Lattice after one Metropolis step.
pub open spec fn step_spins(c: Seq<i8>, s: u64, l: AcceptanceLimits) -> Seq<i8> {
    if step_flips(c, s, l) {
        flipped(c, proposed_row(s), proposed_col(s))
    } else {
        c
    }
}

/// A Metropolis step keeps every cell at +1 or -1.
pub proof fn lemma_step_valid(c: Seq<i8>, s: u64, l: AcceptanceLimits)
    requires
        valid_spins(c),
    ensures
        valid_spins(step_spins(c, s, l)),
{
    let i = proposed_row(s);
    let j = proposed_col(s);
    lemma_cell_in_range(i, j);
    assert(c[cell(i, j)] == 1 || c[cell(i, j)] == -1);
}

/// One Metropolis step: propose a cell, then flip it when the energy falls or
/// when the acceptance draw is below the limit for the energy rise.
pub fn mc_step(config: &mut SpinConfig, limits: &AcceptanceLimits, prng: &mut PRNG)
    requires
        valid_spins(old(config)@),
    ensures
        valid_spins(final(config)@),
        final(config)@ == step_spins(old(config)@, old(prng).state, *limits),
        final(prng).state == step_state(old(config)@, old(prng).state),
        delta_energy(old(config)@, proposed_row(old(prng).state), proposed_col(old(prng).state)) < 0
            ==> final(config)@ == flipped(
            old(config)@,
            proposed_row(old(prng).state),
            proposed_col(old(prng).state),
        ) && final(prng).state == state_after(old(prng).state, 2),
{
    let ghost s0 = prng.state;
    proof {
        reveal_with_fuel(state_after, 4);
        assert(state_after(s0, 1) == xorshift(s0));
        assert(state_after(s0, 2) == xorshift(xorshift(s0)));
        assert(state_after(s0, 3) == xorshift(xorshift(xorshift(s0))));
    }
    let i = prng.range(N);
    let j = prng.range(N);
    proof {
        lemma_cell_in_range(i as int, j as int);
    }
    let s = config[i * N + j];
    let ns = neighbor_sum_at(config, i, j);
    let si = s as i32;
    assert(si == 1 || si == -1);
    assert(-8 <= 2 * si * ns <= 8) by (nonlinear_arith)
        requires
            si == 1 || si == -1,
            -4 <= ns <= 4,
    ;
    let delta_e = 2 * si * ns;
    assert(delta_e == delta_energy(config@, i as int, j as int));
    let flip = if delta_e < 0 {
        true
    } else {
        let u = prng.next_u32();
        (u as u64) < limits.limit(delta_e)
    };
    if flip {
        config.set(i * N + j, -s);
        assert(config@ =~= flipped(old(config)@, i as int, j as int));
    }
}

} // verus!
