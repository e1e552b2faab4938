//! Decimal text for the listing records: sizes and modification times travel
//! as ASCII digit runs, and a malformed or oversized run reads back as zero,
//! matching how the peers fall back on `0` for a field they cannot parse.

use vstd::prelude::*;
use vstd::arithmetic::div_mod::lemma_fundamental_div_mod;

verus! {

/// ASCII digits of `n` without leading zeros; empty for zero.
pub open spec fn spec_dec_digits(n: int) -> Seq<u8>
    decreases n,
{
    if n <= 0 {
        Seq::empty()
    } else {
        spec_dec_digits(n / 10) + seq![(0x30 + n % 10) as u8]
    }
}

/// The decimal rendering of `n`: `"0"` for zero, else its digits.
pub open spec fn spec_dec(n: int) -> Seq<u8> {
    if n == 0 {
        seq![0x30u8]
    } else {
        spec_dec_digits(n)
    }
}

/// Whether `s` is a non-empty run of ASCII digits.
pub open spec fn spec_is_digit_run(s: Seq<u8>) -> bool {
    s.len() > 0 && forall|i: int| 0 <= i < s.len() ==> 0x30 <= #[trigger] s[i] <= 0x39
}

/// Numeric value of a digit run, most significant first.
pub open spec fn spec_digit_run_value(s: Seq<u8>) -> int
    decreases s.len(),
{
    if s.len() == 0 {
        0
    } else {
        spec_digit_run_value(s.drop_last()) * 10 + (s.last() - 0x30)
    }
}

/// What reading a decimal field yields: the value of a digit run that fits
/// in a `u64`, and zero for anything else.
pub open spec fn spec_parse_u64(s: Seq<u8>) -> u64 {
    if spec_is_digit_run(s) && spec_digit_run_value(s) <= u64::MAX {
        spec_digit_run_value(s) as u64
    } else {
        0
    }
}

/// Appends the digits of `n` to `out`.
fn push_dec_digits(n: u64, out: &mut Vec<u8>)
    ensures
        final(out)@ == old(out)@ + spec_dec_digits(n as int),
    decreases n,
{
    if n > 0 {
        push_dec_digits(n / 10, out);
        out.push(0x30u8 + (n % 10) as u8);
        proof {
            assert(out@ =~= old(out)@ + spec_dec_digits(n as int));
        }
    } else {
        proof {
            assert(out@ =~= old(out)@ + spec_dec_digits(n as int));
        }
    }
}

/// Renders `n` in decimal.
pub fn u64_to_dec(n: u64) -> (r: Vec<u8>)
    ensures
        r@ == spec_dec(n as int),
{
    let mut out: Vec<u8> = Vec::new();
    if n == 0 {
        out.push(0x30u8);
        proof {
            assert(out@ =~= spec_dec(0));
        }
    } else {
        push_dec_digits(n, &mut out);
        proof {
            assert(Seq::<u8>::empty() + spec_dec_digits(n as int) =~= spec_dec_digits(n as int));
        }
    }
    out
}

/// A digit run's value is never negative.
proof fn lemma_digit_run_value_nonneg(s: Seq<u8>)
    requires
        forall|i: int| 0 <= i < s.len() ==> 0x30 <= #[trigger] s[i] <= 0x39,
    ensures
        spec_digit_run_value(s) >= 0,
    decreases s.len(),
{
    if s.len() > 0 {
        lemma_digit_run_value_nonneg(s.drop_last());
    }
}

/// Once a prefix of a digit run is too large for a `u64`, so is every longer
/// prefix.
proof fn lemma_digit_run_value_monotone(s: Seq<u8>, i: int, j: int)
    requires
        forall|k: int| 0 <= k < s.len() ==> 0x30 <= #[trigger] s[k] <= 0x39,
        0 <= i <= j <= s.len(),
    ensures
        spec_digit_run_value(s.take(i)) <= spec_digit_run_value(s.take(j)),
    decreases j - i,
{
    if i < j {
        lemma_digit_run_value_monotone(s, i, j - 1);
        let p = s.take(j - 1);
        let q = s.take(j);
        assert(q.drop_last() =~= p);
        assert(forall|k: int| 0 <= k < p.len() ==> 0x30 <= #[trigger] p[k] <= 0x39);
        lemma_digit_run_value_nonneg(p);
        assert(spec_digit_run_value(q) == spec_digit_run_value(p) * 10 + (q.last() - 0x30));
        assert(spec_digit_run_value(p) * 10 >= spec_digit_run_value(p)) by (nonlinear_arith)
            requires
                spec_digit_run_value(p) >= 0,
        ;
    }
}

/// Reads a decimal field: the value of a digit run, zero on any malformed or
/// oversized input.
pub fn parse_u64_dec(b: &[u8]) -> (r: u64)
    ensures
        r == spec_parse_u64(b@),
{
    if b.len() == 0 {
        return 0;
    }
    let mut acc: u64 = 0;
    let mut i: usize = 0;
    while i < b.len()
        invariant
            0 < b@.len(),
            i <= b@.len(),
            forall|k: int| 0 <= k < i ==> 0x30 <= #[trigger] b@[k] <= 0x39,
            acc == spec_digit_run_value(b@.take(i as int)),
        decreases b@.len() - i,
    {
        let c = b[i];
        if c < 0x30 || c > 0x39 {
            proof {
                assert(!spec_is_digit_run(b@));
            }
            return 0;
        }
        let d: u64 = (c - 0x30) as u64;
        if acc > (u64::MAX - d) / 10 {
            proof {
                let p = b@.take(i as int);
                let q = b@.take(i as int + 1);
                assert(q.drop_last() =~= p);
                assert(q.last() == c);
                assert(acc * 10 + d > u64::MAX) by (nonlinear_arith)
                    requires
                        acc > (u64::MAX - d) / 10,
                        0 <= d <= 9,
                        acc >= 0,
                ;
                assert(spec_digit_run_value(q) > u64::MAX);
                if spec_is_digit_run(b@) {
                    lemma_digit_run_value_monotone(b@, i as int + 1, b@.len() as int);
                    assert(b@.take(b@.len() as int) =~= b@);
                    assert(spec_digit_run_value(b@) > u64::MAX);
                }
            }
            return 0;
        }
        proof {
            let p = b@.take(i as int);
            let q = b@.take(i as int + 1);
            assert(q.drop_last() =~= p);
            assert(q.last() == c);
            assert(acc * 10 + d <= u64::MAX) by (nonlinear_arith)
                requires
                    acc <= (u64::MAX - d) / 10,
                    0 <= d <= 9,
                    acc >= 0,
            ;
        }
        acc = acc * 10 + d;
        i += 1;
    }
    proof {
        assert(b@.take(b@.len() as int) =~= b@);
        assert(spec_is_digit_run(b@));
        lemma_digit_run_value_nonneg(b@);
    }
    acc
}

/// Rendering in decimal produces a digit run.
pub proof fn lemma_dec_digits_are_digits(n: int)
    ensures
        forall|i: int|
            0 <= i < spec_dec_digits(n).len() ==> 0x30 <= #[trigger] spec_dec_digits(n)[i] <= 0x39,
    decreases n,
{
    if n > 0 {
        lemma_dec_digits_are_digits(n / 10);
        let s = spec_dec_digits(n);
        let p = spec_dec_digits(n / 10);
        assert forall|i: int| 0 <= i < s.len() implies 0x30 <= #[trigger] s[i] <= 0x39 by {
            if i < p.len() {
                assert(s[i] == p[i]);
            }
        }
    }
}

/// The digits of `n` read back as `n`.
proof fn lemma_dec_digits_value(n: int)
    requires
        n >= 0,
    ensures
        spec_digit_run_value(spec_dec_digits(n)) == n,
        n > 0 ==> spec_dec_digits(n).len() > 0,
    decreases n,
{
    if n > 0 {
        lemma_dec_digits_value(n / 10);
        let s = spec_dec_digits(n);
        assert(s.drop_last() =~= spec_dec_digits(n / 10));
        lemma_fundamental_div_mod(n, 10);
    }
}

/// Round trip: every `u64` survives rendering and reading back.
pub proof fn lemma_dec_round_trip(n: u64)
    ensures
        spec_parse_u64(spec_dec(n as int)) == n,
{
    if n == 0 {
        let s = spec_dec(0);
        assert(s.len() == 1 && s.last() == 0x30u8);
        assert(s.drop_last() =~= Seq::<u8>::empty());
        assert(spec_digit_run_value(s.drop_last()) == 0);
        assert(spec_digit_run_value(s) == 0);
        assert(spec_is_digit_run(s));
    } else {
        lemma_dec_digits_value(n as int);
        lemma_dec_digits_are_digits(n as int);
        assert(spec_is_digit_run(spec_dec(n as int)));
    }
}

} // verus!
