use vstd::prelude::*;
use crate::prng::{PRNG, draw, state_after};

verus! {

/// Side length of the square lattice.
pub const N: usize = 8;

/// Number of cells of the lattice.
pub const CELLS: usize = N * N;

/// Spins in row-major order: the cell at row `i`, column `j` is `i * N + j`.
pub type SpinConfig = Vec<i8>;

/// A lattice of exactly `N * N` cells, each holding +1 or -1.
pub open spec fn valid_spins(c: Seq<i8>) -> bool {
    &&& c.len() == CELLS
    &&& forall|k: int| 0 <= k < CELLS ==> #[trigger] c[k] == 1 || c[k] == -1
}

/// Position of the cell at row `i`, column `j`.
pub open spec fn cell(i: int, j: int) -> int {
    i * N + j
}

/// Spin at row `i`, column `j`.
pub open spec fn spin(c: Seq<i8>, i: int, j: int) -> int {
    c[cell(i, j)] as int
}

/// Sum of the four neighbours of (i, j), rows and columns wrapping around.
pub open spec fn neighbor_sum(c: Seq<i8>, i: int, j: int) -> int {
    spin(c, (i + 1) % (N as int), j) + spin(c, (i + N - 1) % (N as int), j) + spin(c, i, (j + 1) % (N as int))
        + spin(c, i, (j + N - 1) % (N as int))
}

/// Energy of the bonds from cell `k` to the next row and to the next column.
pub open spec fn bond_energy(c: Seq<i8>, k: int) -> int {
    let i = k / (N as int);
    let j = k % (N as int);
    -spin(c, i, j) * (spin(c, (i + 1) % (N as int), j) + spin(c, i, (j + 1) % (N as int)))
}

/// Bond energy summed over the first `k` cells.
pub open spec fn energy_upto(c: Seq<i8>, k: nat) -> int
    decreases k,
{
    if k == 0 {
        0
    } else {
        energy_upto(c, (k - 1) as nat) + bond_energy(c, k - 1)
    }
}

/// Nearest-neighbour energy of the lattice, each bond counted once.
pub open spec fn energy_of(c: Seq<i8>) -> int {
    energy_upto(c, CELLS as nat)
}

/// Spins summed over the first `k` cells.
pub open spec fn magnetization_upto(c: Seq<i8>, k: nat) -> int
    decreases k,
{
    if k == 0 {
        0
    } else {
        magnetization_upto(c, (k - 1) as nat) + c[k - 1] as int
    }
}

/// Signed sum of all spins.
pub open spec fn magnetization_of(c: Seq<i8>) -> int {
    magnetization_upto(c, CELLS as nat)
}

/// Spin that a drawn value gives to a cell: +1 when its lowest bit is clear.
pub open spec fn spin_of_draw(v: u32) -> i8 {
    if v % 2 == 0 {
        1i8
    } else {
        -1i8
    }
}

/// The lattice that a generator seeded with `seed` fills, one draw per cell.
pub open spec fn initial_spins(seed: u64) -> Seq<i8> {
    Seq::new(CELLS as nat, |k: int| spin_of_draw(draw(seed, (k + 1) as nat)))
}

/// Every in-range cell index splits into a row and a column inside the lattice.
pub proof fn lemma_cell_split(k: int)
    requires
        0 <= k < CELLS,
    ensures
        0 <= k / (N as int) < N,
        0 <= k % (N as int) < N,
        cell(k / (N as int), k % (N as int)) == k,
{
}

/// Wrapped neighbours of an in-range row and column stay in the lattice.
pub proof fn lemma_cell_in_range(i: int, j: int)
    requires
        0 <= i < N,
        0 <= j < N,
    ensures
        0 <= cell(i, j) < CELLS,
{
}

proof fn lemma_bond_bounds(c: Seq<i8>, k: int)
    requires
        valid_spins(c),
        0 <= k < CELLS,
    ensures
        -2 <= bond_energy(c, k) <= 2,
{
    let i = k / (N as int);
    let j = k % (N as int);
    lemma_cell_split(k);
    lemma_cell_in_range((i + 1) % (N as int), j);
    lemma_cell_in_range(i, (j + 1) % (N as int));
    let s = spin(c, i, j);
    let t = spin(c, (i + 1) % (N as int), j) + spin(c, i, (j + 1) % (N as int));
    assert(c[cell(i, j)] == 1 || c[cell(i, j)] == -1);
    assert(c[cell((i + 1) % (N as int), j)] == 1 || c[cell((i + 1) % (N as int), j)] == -1);
    assert(c[cell(i, (j + 1) % (N as int))] == 1 || c[cell(i, (j + 1) % (N as int))] == -1);
    if s == 1 {
        assert(-s * t == -t);
    } else {
        assert(-s * t == t);
    }
}

/// Fills a fresh lattice from the generator, one draw per cell in row-major order.
pub fn init_spin(prng: &mut PRNG) -> (config: SpinConfig)
    ensures
        valid_spins(config@),
        config@ == initial_spins(old(prng).state),
        final(prng).state == state_after(old(prng).state, CELLS as nat),
{
    let ghost seed = prng.state;
    let mut config: SpinConfig = Vec::new();
    let mut k: usize = 0;
    while k < CELLS
        invariant
            k <= CELLS,
            config@.len() == k,
            prng.state == state_after(seed, k as nat),
            forall|m: int| 0 <= m < k ==> #[trigger] config@[m] == spin_of_draw(draw(seed, (m + 1) as nat)),
        decreases CELLS - k,
    {
        let up = prng.next_bool();
        config.push(if up { 1i8 } else { -1i8 });
        k = k + 1;
    }
    assert(config@ =~= initial_spins(seed));
    config
}

/// Sum of the four wrapped neighbours of the cell at row `i`, column `j`.
pub fn neighbor_sum_at(config: &SpinConfig, i: usize, j: usize) -> (r: i32)
    requires
        valid_spins(config@),
        i < N,
        j < N,
    ensures
        r == neighbor_sum(config@, i as int, j as int),
        -4 <= r <= 4,
{
    let down = (i + 1) % N;
    let up = (i + N - 1) % N;
    let right = (j + 1) % N;
    let left = (j + N - 1) % N;
    proof {
        lemma_cell_in_range(down as int, j as int);
        lemma_cell_in_range(up as int, j as int);
        lemma_cell_in_range(i as int, right as int);
        lemma_cell_in_range(i as int, left as int);
    }
    let a = config[down * N + j] as i32;
    let b = config[up * N + j] as i32;
    let c = config[i * N + right] as i32;
    let d = config[i * N + left] as i32;
    proof {
        let cs = config@;
        assert(cs[cell(down as int, j as int)] == 1 || cs[cell(down as int, j as int)] == -1);
        assert(cs[cell(up as int, j as int)] == 1 || cs[cell(up as int, j as int)] == -1);
        assert(cs[cell(i as int, right as int)] == 1 || cs[cell(i as int, right as int)] == -1);
        assert(cs[cell(i as int, left as int)] == 1 || cs[cell(i as int, left as int)] == -1);
    }
    a + b + c + d
}

/// Nearest-neighbour energy, each cell bonded to the next row and the next column.
pub fn energy_calc(config: &SpinConfig) -> (e: i32)
    requires
        valid_spins(config@),
    ensures
        e == energy_of(config@),
        -2 * (CELLS as int) <= e <= 2 * (CELLS as int),
{
    let mut e: i32 = 0;
    let mut k: usize = 0;
    while k < CELLS
        invariant
            valid_spins(config@),
            k <= CELLS,
            e == energy_upto(config@, k as nat),
            -2 * (k as int) <= e <= 2 * (k as int),
        decreases CELLS - k,
    {
        let i = k / N;
        let j = k % N;
        proof {
            lemma_cell_split(k as int);
            lemma_cell_in_range((i as int + 1) % (N as int), j as int);
            lemma_cell_in_range(i as int, (j as int + 1) % (N as int));
            lemma_bond_bounds(config@, k as int);
        }
        let s = config[i * N + j] as i32;
        let down = config[((i + 1) % N) * N + j] as i32;
        let right = config[i * N + (j + 1) % N] as i32;
        proof {
            assert(s == 1 || s == -1);
            assert(-2 <= down + right <= 2) by {
                assert(config@[cell((i as int + 1) % (N as int), j as int)] == 1
                    || config@[cell((i as int + 1) % (N as int), j as int)] == -1);
                assert(config@[cell(i as int, (j as int + 1) % (N as int))] == 1
                    || config@[cell(i as int, (j as int + 1) % (N as int))] == -1);
            }
            assert(-4 <= s * (down + right) <= 4) by (nonlinear_arith)
                requires
                    s == 1 || s == -1,
                    -2 <= down + right <= 2,
            ;
        }
        proof {
            let si = spin(config@, i as int, j as int);
            let t = spin(config@, (i as int + 1) % (N as int), j as int) + spin(
                config@,
                i as int,
                (j as int + 1) % (N as int),
            );
            assert(si == s && t == down + right);
            assert(-si * t == -(si * t)) by (nonlinear_arith);
            assert(bond_energy(config@, k as int) == -(s * (down + right)));
        }
        e = e - s * (down + right);
        k = k + 1;
    }
    e
}

/// Signed sum of all spins.
pub fn magnetization_calc(config: &SpinConfig) -> (m: i32)
    requires
        valid_spins(config@),
    ensures
        m == magnetization_of(config@),
        -(CELLS as int) <= m <= (CELLS as int),
{
    let mut m: i32 = 0;
    let mut k: usize = 0;
    while k < CELLS
        invariant
            valid_spins(config@),
            k <= CELLS,
            m == magnetization_upto(config@, k as nat),
            -(k as int) <= m <= k as int,
        decreases CELLS - k,
    {
        assert(config@[k as int] == 1 || config@[k as int] == -1);
        m = m + config[k] as i32;
        k = k + 1;
    }
    m
}

} // verus!
