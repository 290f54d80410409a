use vstd::prelude::*;
use crate::prng::{PRNG, state_after};
use crate::lattice::{
    CELLS, valid_spins, energy_of, magnetization_of, initial_spins, init_spin,
    energy_calc, magnetization_calc,
};
use crate::metropolis::{AcceptanceLimits, step_spins, step_state, mc_step};

verus! {

/// Steps run before any sample is taken.
pub const EQ_STEPS: usize = 20;

/// Steps run, and sampled after each one, in the measurement phase.
pub const MC_STEPS: usize = 20;

/// Input of one run: the seed and the acceptance limits of its temperature.
#[derive(Clone, Copy, Debug, PartialEq, Eq)]
pub struct IsingInput {
    pub seed: u64,
    pub acceptance: AcceptanceLimits,
}

/// Lattice and generator state after `n` Metropolis steps from `c` and `s`.
pub open spec fn run_steps(c: Seq<i8>, s: u64, l: AcceptanceLimits, n: nat) -> (Seq<i8>, u64)
    decreases n,
{
    if n == 0 {
        (c, s)
    } else {
        let (c1, s1) = run_steps(c, s, l, (n - 1) as nat);
        (step_spins(c1, s1, l), step_state(c1, s1))
    }
}

/// Energy summed over the lattices seen after each of the first `n` steps.
pub open spec fn energy_sum(c: Seq<i8>, s: u64, l: AcceptanceLimits, n: nat) -> int
    decreases n,
{
    if n == 0 {
        0
    } else {
        energy_sum(c, s, l, (n - 1) as nat) + energy_of(run_steps(c, s, l, n).0)
    }
}

/// Absolute magnetization summed over the lattices seen after each of the first `n` steps.
pub open spec fn abs_magnetization_sum(c: Seq<i8>, s: u64, l: AcceptanceLimits, n: nat) -> int
    decreases n,
{
    if n == 0 {
        0
    } else {
        abs_magnetization_sum(c, s, l, (n - 1) as nat) + abs(
            magnetization_of(run_steps(c, s, l, n).0),
        )
    }
}

/// Absolute value.
pub open spec fn abs(x: int) -> int {
    if x < 0 {
        -x
    } else {
        x
    }
}

/// Integer division rounding toward zero, for a positive divisor.
pub open spec fn div_toward_zero(a: int, b: int) -> int {
    if a >= 0 {
        a / b
    } else {
        -((-a) / b)
    }
}

/// Lattice and generator state when the measurement phase begins.
pub open spec fn equilibrated(input: IsingInput) -> (Seq<i8>, u64) {
    run_steps(
        initial_spins(input.seed),
        state_after(input.seed, CELLS as nat),
        input.acceptance,
        EQ_STEPS as nat,
    )
}

/// Average energy and average absolute magnetization of a run.
pub open spec fn simulation(input: IsingInput) -> (int, int) {
    let (c, s) = equilibrated(input);
    (
        div_toward_zero(energy_sum(c, s, input.acceptance, MC_STEPS as nat), MC_STEPS as int),
        abs_magnetization_sum(c, s, input.acceptance, MC_STEPS as nat) / (MC_STEPS as int),
    )
}

/// A run is a function of its input alone: equal inputs give equal averages.
pub proof fn lemma_equal_inputs_equal_results(a: IsingInput, b: IsingInput)
    requires
        a == b,
    ensures
        simulation(a) == simulation(b),
{
}

/// Runs the equilibration phase and then the measurement phase, and returns
/// the average energy and the average absolute magnetization, each rounded
/// toward zero.
pub fn run_simulation(input: &IsingInput) -> (r: (i32, i32))
    ensures
        r.0 as int == simulation(*input).0,
        r.1 as int == simulation(*input).1,
        -2 * (CELLS as int) <= r.0 <= 2 * (CELLS as int),
        0 <= r.1 <= CELLS as int,
{
    let l = &input.acceptance;
    let mut prng = PRNG::new(input.seed);
    let mut config = init_spin(&mut prng);
    let ghost c0 = config@;
    let ghost s0 = prng.state;
    let mut k: usize = 0;
    while k < EQ_STEPS
        invariant
            k <= EQ_STEPS,
            valid_spins(config@),
            (config@, prng.state) == run_steps(c0, s0, *l, k as nat),
        decreases EQ_STEPS - k,
    {
        mc_step(&mut config, l, &mut prng);
        k = k + 1;
    }
    let ghost c1 = config@;
    let ghost s1 = prng.state;
    let mut e_sum: i32 = 0;
    let mut m_sum: i32 = 0;
    let mut k: usize = 0;
    while k < MC_STEPS
        invariant
            k <= MC_STEPS,
            valid_spins(config@),
            (config@, prng.state) == run_steps(c1, s1, *l, k as nat),
            e_sum == energy_sum(c1, s1, *l, k as nat),
            m_sum == abs_magnetization_sum(c1, s1, *l, k as nat),
            -128 * (k as int) <= e_sum <= 128 * (k as int),
            0 <= m_sum <= 64 * (k as int),
        decreases MC_STEPS - k,
    {
        mc_step(&mut config, l, &mut prng);
        let e = energy_calc(&config);
        let m = magnetization_calc(&config);
        e_sum = e_sum + e;
        m_sum = m_sum + if m < 0 { -m } else { m };
        k = k + 1;
    }
    let n = MC_STEPS as i32;
    let avg_energy = if e_sum >= 0 { e_sum / n } else { -((-e_sum) / n) };
    let avg_mag = m_sum / n;
    (avg_energy, avg_mag)
}

} // verus!
