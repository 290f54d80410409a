use vstd::prelude::*;
use vstd::arithmetic::power::pow;
use vstd::string::*;
use alloy_sol_types::{sol_data, SolType};

verus! {

/// What a run publishes: its seed, its temperature in hundredths, and its two averages.
#[derive(Clone, Copy, Debug, PartialEq, Eq)]
pub struct PublicValues {
    pub seed: u64,
    pub temperature_fixed: u32,
    pub avg_energy: i32,
    pub avg_mag: i32,
}

/// Byte `n` (0 is the least significant) of the two's-complement form of `v`.
pub open spec fn byte_of(v: int, n: nat) -> u8 {
    ((v / pow(256, n)) % 256) as u8
}

/// The 32-byte big-endian two's-complement word that holds `v`.
pub open spec fn abi_word(v: int) -> Seq<u8> {
    Seq::new(32, |k: int| byte_of(v, (31 - k) as nat))
}

/// Contract-ABI encoding of the tuple (uint64, uint32, int32, int32): one word per field.
pub open spec fn abi_encoding(seed: u64, temperature_fixed: u32, avg_energy: i32, avg_mag: i32) -> Seq<u8> {
    abi_word(seed as int) + abi_word(temperature_fixed as int) + abi_word(avg_energy as int) + abi_word(
        avg_mag as int,
    )
}

/// Relies on alloy_sol_types' `SolType::abi_encode` for the static tuple
/// (uint64, uint32, int32, int32): each field becomes one 32-byte word,
/// unsigned fields zero-padded and signed fields sign-extended, big-endian.
#[verifier::external_body]
fn abi_encode_tuple(seed: u64, temperature_fixed: u32, avg_energy: i32, avg_mag: i32) -> (r: Vec<u8>)
    ensures
        r@ == abi_encoding(seed, temperature_fixed, avg_energy, avg_mag),
{
    <(sol_data::Uint<64>, sol_data::Uint<32>, sol_data::Int<32>, sol_data::Int<32>)>::abi_encode(&(seed, temperature_fixed, avg_energy, avg_mag))
}

impl PublicValues {
    /// The 128-byte contract-ABI encoding of the four fields, in order.
    pub fn abi_encode(&self) -> (r: Vec<u8>)
        ensures
            r@ == abi_encoding(self.seed, self.temperature_fixed, self.avg_energy, self.avg_mag),
            r@.len() == 128,
    {
        abi_encode_tuple(self.seed, self.temperature_fixed, self.avg_energy, self.avg_mag)
    }
}

/// Largest value a fixed-point temperature can take.
pub const FIXED_MAX: u64 = 0xFFFF_FFFF;

/// A decimal digit.
pub open spec fn is_digit(c: char) -> bool {
    '0' <= c && c <= '9'
}

/// Every character of `s` is a decimal digit.
pub open spec fn all_digits(s: Seq<char>) -> bool {
    forall|i: int| 0 <= i < s.len() ==> is_digit(#[trigger] s[i])
}

/// Value of one decimal digit.
pub open spec fn digit_value(c: char) -> int {
    (c as int) - ('0' as int)
}

/// Value of a string of decimal digits, most significant first.
pub open spec fn digits_value(s: Seq<char>) -> int
    decreases s.len(),
{
    if s.len() == 0 {
        0
    } else {
        10 * digits_value(s.drop_last()) + digit_value(s.last())
    }
}

/// Hundredths given by the digits after the point: the first two count, the rest are dropped.
pub open spec fn hundredths(f: Seq<char>) -> int {
    if f.len() == 0 {
        0
    } else if f.len() == 1 {
        10 * digit_value(f[0])
    } else {
        10 * digit_value(f[0]) + digit_value(f[1])
    }
}

/// `t` is a decimal numeral whose integer digits end at `p`: either `t` is
/// all digits and `p` is its length, or `t[p]` is a point with digits on both sides.
pub open spec fn decimal_split(t: Seq<char>, p: int) -> bool {
    &&& 0 < p <= t.len()
    &&& all_digits(t.subrange(0, p))
    &&& p == t.len() || (t[p] == '.' && p + 1 < t.len() && all_digits(t.subrange(p + 1, t.len() as int)))
}

/// Hundredths of the numeral `t` split at `p`, truncated beyond the second fractional digit.
pub open spec fn centi_value(t: Seq<char>, p: int) -> int {
    100 * digits_value(t.subrange(0, p)) + if p < t.len() {
        hundredths(t.subrange(p + 1, t.len() as int))
    } else {
        0
    }
}

proof fn lemma_digits_value_grows(s: Seq<char>, k: int, m: int)
    requires
        0 <= k <= m <= s.len(),
        all_digits(s.subrange(0, m)),
    ensures
        0 <= digits_value(s.subrange(0, k)) <= digits_value(s.subrange(0, m)),
    decreases m,
{
    if m > 0 {
        let pre = s.subrange(0, m - 1);
        assert(s.subrange(0, m).drop_last() =~= pre);
        assert(all_digits(pre)) by {
            assert forall|i: int| 0 <= i < pre.len() implies is_digit(#[trigger] pre[i]) by {
                assert(pre[i] == s.subrange(0, m)[i]);
            }
        }
        assert(is_digit(s.subrange(0, m)[m - 1]));
        if k < m {
            lemma_digits_value_grows(s, k, m - 1);
        } else {
            lemma_digits_value_grows(s, m - 1, m - 1);
        }
    }
}

proof fn lemma_split_is_first_nondigit(t: Seq<char>, i: int, p: int)
    requires
        0 <= i <= t.len(),
        all_digits(t.subrange(0, i)),
        i == t.len() || !is_digit(t[i]),
        decimal_split(t, p),
    ensures
        p == i,
{
    if p < i {
        assert(t.subrange(0, i)[p] == t[p]);
    } else if p > i {
        assert(t.subrange(0, p)[i] == t[i]);
    }
}

/// Reads a non-negative decimal numeral (`226`, `2.26`, `1.5`) as a whole
/// number of hundredths, dropping any further fractional digits. Returns
/// `None` for text of any other shape or for a value above `u32::MAX`.
pub fn temperature_fixed(text: &str) -> (r: Option<u32>)
    ensures
        r.is_some() <==> exists|p: int|
            decimal_split(text@, p) && centi_value(text@, p) <= FIXED_MAX,
        forall|p: int| #[trigger]
            decimal_split(text@, p) && r.is_some() ==> r.unwrap() as int == centi_value(text@, p),
{
    let ghost t = text@;
    let n = text.unicode_len();
    let mut i: usize = 0;
    let mut acc: u64 = 0;
    while i < n
        invariant
            i <= n,
            n == t.len(),
            t == text@,
            all_digits(t.subrange(0, i as int)),
            acc as int == digits_value(t.subrange(0, i as int)),
            acc <= FIXED_MAX,
        ensures
            i <= n,
            all_digits(t.subrange(0, i as int)),
            acc as int == digits_value(t.subrange(0, i as int)),
            acc <= FIXED_MAX,
            i == n || !is_digit(t[i as int]),
        decreases n - i,
    {
        let c = text.get_char(i);
        if !('0' <= c && c <= '9') {
            break;
        }
        let d = (c as u32 - '0' as u32) as u64;
        proof {
            assert(t.subrange(0, i as int + 1).drop_last() =~= t.subrange(0, i as int));
            assert(all_digits(t.subrange(0, i as int + 1))) by {
                assert forall|k: int| 0 <= k < i as int + 1 implies is_digit(
                    #[trigger] t.subrange(0, i as int + 1)[k],
                ) by {
                    if k < i {
                        assert(t.subrange(0, i as int + 1)[k] == t.subrange(0, i as int)[k]);
                    }
                }
            }
        }
        let next = acc * 10 + d;
        if next > FIXED_MAX {
            proof {
                assert forall|p: int| decimal_split(t, p) implies centi_value(t, p) > FIXED_MAX by {
                    if p <= i {
                        assert(t.subrange(0, p)[p - 1] == t[p - 1]);
                        assert(is_digit(t[i as int]));
                        if p < t.len() {
                            assert(t.subrange(0, i as int + 1)[p] == t[p]);
                        }
                    }
                    lemma_digits_value_grows(t, i as int + 1, p);
                    if p < t.len() {
                        let f = t.subrange(p + 1, t.len() as int);
                        assert(is_digit(f[0]));
                        if f.len() > 1 {
                            assert(is_digit(f[1]));
                        }
                    }
                }
            }
            return None;
        }
        acc = next;
        i = i + 1;
    }
    if i == 0 {
        proof {
            assert forall|p: int| !decimal_split(t, p) by {
                if decimal_split(t, p) {
                    lemma_split_is_first_nondigit(t, 0, p);
                }
            }
        }
        return None;
    }
    if i == n {
        proof {
            assert forall|p: int| decimal_split(t, p) implies p == i by {
                lemma_split_is_first_nondigit(t, i as int, p);
            }
            assert(decimal_split(t, i as int));
        }
        let v = acc * 100;
        return if v > FIXED_MAX {
            None
        } else {
            Some(v as u32)
        };
    }
    if text.get_char(i) != '.' || i + 1 == n {
        proof {
            assert forall|p: int| !decimal_split(t, p) by {
                if decimal_split(t, p) {
                    lemma_split_is_first_nondigit(t, i as int, p);
                }
            }
        }
        return None;
    }
    let ghost f = t.subrange(i as int + 1, n as int);
    let mut h: u64 = 0;
    let mut j: usize = i + 1;
    while j < n
        invariant
            i + 1 <= j <= n,
            n == t.len(),
            t == text@,
            f == t.subrange(i as int + 1, n as int),
            all_digits(t.subrange(i as int + 1, j as int)),
            h as int == hundredths(t.subrange(i as int + 1, j as int)),
            all_digits(t.subrange(0, i as int)),
            acc as int == digits_value(t.subrange(0, i as int)),
            acc <= FIXED_MAX,
            t[i as int] == '.',
            h <= 99,
        decreases n - j,
    {
        let c = text.get_char(j);
        if !('0' <= c && c <= '9') {
            proof {
                assert forall|p: int| !decimal_split(t, p) by {
                    if decimal_split(t, p) {
                        lemma_split_is_first_nondigit(t, i as int, p);
                        assert(f[j - i - 1] == t[j as int]);
                    }
                }
            }
            return None;
        }
        let d = (c as u32 - '0' as u32) as u64;
        let ghost g = t.subrange(i as int + 1, j as int + 1);
        proof {
            assert(all_digits(g)) by {
                assert forall|k: int| 0 <= k < g.len() implies is_digit(#[trigger] g[k]) by {
                    if k < g.len() - 1 {
                        assert(g[k] == t.subrange(i as int + 1, j as int)[k]);
                    }
                }
            }
            if j >= i + 2 {
                assert(g[0] == t.subrange(i as int + 1, j as int)[0]);
            }
            if j >= i + 3 {
                assert(g[1] == t.subrange(i as int + 1, j as int)[1]);
            }
        }
        if j == i + 1 {
            h = d * 10;
        } else if j == i + 2 {
            h = h + d;
        }
        j = j + 1;
    }
    proof {
        assert(t.subrange(i as int + 1, n as int) == f);
        assert forall|p: int| decimal_split(t, p) implies p == i by {
            lemma_split_is_first_nondigit(t, i as int, p);
        }
        assert(decimal_split(t, i as int));
    }
    let v = acc * 100 + h;
    if v > FIXED_MAX {
        None
    } else {
        Some(v as u32)
    }
}

} // verus!
