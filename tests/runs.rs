use ising_sim::metropolis::AcceptanceLimits;
use ising_sim::public_values::{temperature_fixed, PublicValues};
use ising_sim::simulation::{run_simulation, IsingInput};

// Limits of the temperatures 1.5, 2.26 and 3.0: the first draw that
// `draw / u32::MAX < exp(-dE / T)` rejects, for dE = 0, 4, 8.
const AT_1_5: AcceptanceLimits = AcceptanceLimits { flat: 4294967295, rise4: 298429151, rise8: 20735888 };
const AT_2_26: AcceptanceLimits = AcceptanceLimits { flat: 4294967295, rise4: 731639361, rise8: 124633348 };
const AT_3_0: AcceptanceLimits = AcceptanceLimits { flat: 4294967295, rise4: 1132141088, rise8: 298429151 };

fn run(seed: u64, acceptance: AcceptanceLimits) -> (i32, i32) {
    run_simulation(&IsingInput { seed, acceptance })
}

#[test]
fn seed_42_at_2_26_baseline() {
    assert_eq!(run(42, AT_2_26), (-29, 0));
}

#[test]
fn repeated_runs_agree() {
    for seed in [0u64, 1, 42, 12345] {
        assert_eq!(run(seed, AT_2_26), run(seed, AT_2_26));
    }
}

#[test]
fn other_seeds_and_temperatures() {
    assert_eq!(run(42, AT_1_5), (-33, 2));
    assert_eq!(run(42, AT_3_0), (-31, 3));
    assert_eq!(run(1, AT_2_26), (-27, 7));
    assert_eq!(run(7, AT_2_26), (-13, 9));
    assert_eq!(run(12345, AT_3_0), (-28, 3));
}

#[test]
fn distinct_seeds_give_distinct_results() {
    assert_ne!(run(1, AT_2_26), run(7, AT_2_26));
    assert_ne!(run(42, AT_2_26), run(12345, AT_2_26));
}

#[test]
fn zero_seed_is_degenerate_but_runs() {
    assert_eq!(run(0, AT_2_26), (-124, 63));
}

#[test]
fn results_stay_in_bounds() {
    let never = AcceptanceLimits { flat: 0, rise4: 0, rise8: 0 };
    let always = AcceptanceLimits { flat: u64::MAX, rise4: u64::MAX, rise8: u64::MAX };
    for seed in 0u64..50 {
        for l in [never, always, AT_2_26] {
            let (e, m) = run(seed, l);
            assert!((-128..=128).contains(&e));
            assert!((0..=64).contains(&m));
        }
    }
}

#[test]
fn fixed_point_of_temperatures() {
    assert_eq!(temperature_fixed("2.26"), Some(226));
    assert_eq!(temperature_fixed("1.5"), Some(150));
    assert_eq!(temperature_fixed("2"), Some(200));
    assert_eq!(temperature_fixed("3.0"), Some(300));
    assert_eq!(temperature_fixed(&format!("{}", 2.26f64)), Some(226));
    assert_eq!(temperature_fixed(&format!("{}", 1.5f64)), Some(150));
}

#[test]
fn fixed_point_truncates() {
    assert_eq!(temperature_fixed("2.269"), Some(226));
    assert_eq!(temperature_fixed("0.001"), Some(0));
    assert_eq!(temperature_fixed("42949672.95"), Some(4294967295));
    assert_eq!(temperature_fixed("42949672.959"), Some(4294967295));
}

#[test]
fn fixed_point_rejects() {
    for bad in ["", "abc", ".5", "2.", "-1.5", "NaN", "inf", "1.2.3", "1,5", "42949672.96", "99999999999999999999"] {
        assert_eq!(temperature_fixed(bad), None, "{}", bad);
    }
}

#[test]
fn public_values_abi_layout() {
    let v = PublicValues { seed: 42, temperature_fixed: 226, avg_energy: -29, avg_mag: 0 };
    let bytes = v.abi_encode();
    assert_eq!(bytes.len(), 128);
    let mut expected = vec![0u8; 128];
    expected[31] = 42;
    expected[63] = 226;
    for b in expected[64..96].iter_mut() {
        *b = 0xff;
    }
    expected[95] = 0xe3;
    assert_eq!(bytes, expected);
}

#[test]
fn public_values_abi_wide_fields() {
    let v = PublicValues { seed: u64::MAX, temperature_fixed: 0x01020304, avg_energy: 128, avg_mag: -1 };
    let bytes = v.abi_encode();
    assert!(bytes[..24].iter().all(|&b| b == 0));
    assert!(bytes[24..32].iter().all(|&b| b == 0xff));
    assert_eq!(&bytes[60..64], &[1, 2, 3, 4]);
    assert_eq!(bytes[95], 128);
    assert_eq!(bytes[94], 0);
    assert!(bytes[96..].iter().all(|&b| b == 0xff));
}
