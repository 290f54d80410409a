use ising_sim::lattice::{energy_calc, init_spin, magnetization_calc, neighbor_sum_at, CELLS, N};
use ising_sim::metropolis::{mc_step, AcceptanceLimits};
use ising_sim::prng::PRNG;

fn uniform(v: i8) -> Vec<i8> {
    vec![v; CELLS]
}

fn checkerboard() -> Vec<i8> {
    let mut c = Vec::new();
    for i in 0..N {
        for j in 0..N {
            c.push(if (i + j) % 2 == 0 { 1 } else { -1 });
        }
    }
    c
}

const NEVER: AcceptanceLimits = AcceptanceLimits { flat: 0, rise4: 0, rise8: 0 };
const ALWAYS: AcceptanceLimits = AcceptanceLimits { flat: u64::MAX, rise4: u64::MAX, rise8: u64::MAX };

#[test]
fn prng_first_draws_of_seed_42() {
    let mut p = PRNG::new(42);
    assert_eq!(p.next_u32(), 1456360119);
    assert_eq!(p.next_u32(), 3359763283);
    assert_eq!(p.next_u32(), 3393612768);
    assert_eq!(p.state, 142435135655313518);
}

#[test]
fn prng_zero_seed_stays_zero() {
    let mut p = PRNG::new(0);
    assert_eq!(p.next_u32(), 0);
    assert_eq!(p.state, 0);
    assert!(p.next_bool());
    assert_eq!(p.range(8), 0);
}

#[test]
fn prng_same_seed_same_stream() {
    let mut a = PRNG::new(987654321);
    let mut b = PRNG::new(987654321);
    for _ in 0..100 {
        assert_eq!(a.next_u32(), b.next_u32());
    }
}

#[test]
fn prng_distinct_seeds_distinct_states() {
    let mut a = PRNG::new(1);
    let mut b = PRNG::new(2);
    for _ in 0..100 {
        a.next_u32();
        b.next_u32();
        assert_ne!(a.state, b.state);
    }
}

#[test]
fn prng_range_and_bool_follow_the_draw() {
    let mut p = PRNG::new(42);
    assert_eq!(p.range(8), (1456360119u32 % 8) as usize);
    assert_eq!(p.range(1000), (3359763283u32 % 1000) as usize);
    assert_eq!(p.next_bool(), 3393612768u32 & 1 == 0);
}

#[test]
fn init_spin_fills_every_cell_with_unit_spins() {
    let mut p = PRNG::new(42);
    let c = init_spin(&mut p);
    assert_eq!(c.len(), CELLS);
    assert!(c.iter().all(|&s| s == 1 || s == -1));
    let mut q = PRNG::new(42);
    for k in 0..CELLS {
        let expected = if q.next_bool() { 1 } else { -1 };
        assert_eq!(c[k], expected);
    }
    assert_eq!(p.state, q.state);
}

#[test]
fn energy_of_uniform_and_checkerboard() {
    assert_eq!(energy_calc(&uniform(1)), -128);
    assert_eq!(energy_calc(&uniform(-1)), -128);
    assert_eq!(energy_calc(&checkerboard()), 128);
}

#[test]
fn energy_of_one_reversed_spin() {
    let mut c = uniform(1);
    c[0] = -1;
    assert_eq!(energy_calc(&c), -120);
}

#[test]
fn magnetization_extremes() {
    assert_eq!(magnetization_calc(&uniform(1)), 64);
    assert_eq!(magnetization_calc(&uniform(-1)), -64);
    assert_eq!(magnetization_calc(&checkerboard()), 0);
}

#[test]
fn neighbor_sum_wraps_around() {
    let mut c = uniform(1);
    c[7 * N] = -1;
    c[7] = -1;
    assert_eq!(neighbor_sum_at(&c, 0, 0), 0);
    assert_eq!(neighbor_sum_at(&c, 3, 3), 4);
    assert_eq!(neighbor_sum_at(&checkerboard(), 0, 0), -4);
}

fn proposal(seed: u64) -> (usize, usize) {
    let mut p = PRNG::new(seed);
    let i = p.range(N);
    let j = p.range(N);
    (i, j)
}

#[test]
fn falling_energy_flips_without_acceptance_draw() {
    let (i, j) = proposal(42);
    let mut c = uniform(1);
    c[i * N + j] = -1;
    let mut p = PRNG::new(42);
    mc_step(&mut c, &NEVER, &mut p);
    assert_eq!(c, uniform(1));
    let mut q = PRNG::new(42);
    q.next_u32();
    q.next_u32();
    assert_eq!(p.state, q.state);
}

#[test]
fn rising_energy_rejected_below_zero_limit() {
    let mut c = uniform(1);
    let mut p = PRNG::new(42);
    mc_step(&mut c, &NEVER, &mut p);
    assert_eq!(c, uniform(1));
    let mut q = PRNG::new(42);
    q.next_u32();
    q.next_u32();
    q.next_u32();
    assert_eq!(p.state, q.state);
}

#[test]
fn rising_energy_accepted_under_open_limit() {
    let (i, j) = proposal(42);
    let mut c = uniform(1);
    let mut p = PRNG::new(42);
    mc_step(&mut c, &ALWAYS, &mut p);
    let mut expected = uniform(1);
    expected[i * N + j] = -1;
    assert_eq!(c, expected);
}

#[test]
fn rising_energy_follows_the_acceptance_draw() {
    // seed 42 draws 3393612768 for acceptance; a uniform lattice rises by 8.
    let mut c = uniform(1);
    let mut p = PRNG::new(42);
    let just_above = AcceptanceLimits { flat: 0, rise4: 0, rise8: 3393612769 };
    mc_step(&mut c, &just_above, &mut p);
    assert_eq!(magnetization_calc(&c), 62);
    let mut c = uniform(1);
    let mut p = PRNG::new(42);
    let exact = AcceptanceLimits { flat: 0, rise4: 0, rise8: 3393612768 };
    mc_step(&mut c, &exact, &mut p);
    assert_eq!(magnetization_calc(&c), 64);
}

#[test]
fn limit_picks_the_energy_rise() {
    let l = AcceptanceLimits { flat: 1, rise4: 2, rise8: 3 };
    assert_eq!(l.limit(0), 1);
    assert_eq!(l.limit(4), 2);
    assert_eq!(l.limit(8), 3);
}
