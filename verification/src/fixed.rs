//! Fixed-point token amounts: 18 fractional decimal digits held in integer
//! units, and the strict decimal-string grammar of the protocol payloads.

use vstd::prelude::*;
use crate::errors::Brc4ParseErr;

verus! {

/// 10^18, the number of units in one whole token.
pub const UNITS_PER_TOKEN: u128 = 1_000_000_000_000_000_000;

/// The largest representable amount in units: u64::MAX whole tokens.
pub const MAX_AMOUNT_UNITS: u128 = 18_446_744_073_709_551_615_000_000_000_000_000_000;

pub open spec fn pow10(n: nat) -> int
    decreases n,
{
    if n == 0 {
        1
    } else {
        10 * pow10((n - 1) as nat)
    }
}

/// A token quantity with 18 fractional decimal digits, stored as a count of
/// 10^-18 units. Every protocol amount (max, lim, supply, amt, balances) is
/// one of these; all are bounded by u64::MAX whole tokens.
#[derive(Clone, Copy, PartialEq, Eq, Structural, Debug)]
pub struct Fixed128 {
    pub units: u128,
}

impl View for Fixed128 {
    type V = int;

    open spec fn view(&self) -> int {
        self.units as int
    }
}

pub open spec fn fixed_in_range(v: int) -> bool {
    0 <= v <= (u64::MAX as int) * pow10(18)
}

/// The amount whose unit count is `v`.
pub open spec fn fixed_units(v: int) -> Fixed128 {
    Fixed128 { units: v as u128 }
}

pub proof fn lemma_pow10_mono(a: nat, b: nat)
    requires
        a <= b,
    ensures
        pow10(a) <= pow10(b),
    decreases b,
{
    if a < b {
        lemma_pow10_mono(a, (b - 1) as nat);
        lemma_pow10_pos((b - 1) as nat);
    }
}

pub proof fn lemma_pow10_pos(n: nat)
    ensures
        pow10(n) >= 1,
    decreases n,
{
    if n > 0 {
        lemma_pow10_pos((n - 1) as nat);
    }
}

proof fn lemma_pow10_add(a: nat, b: nat)
    ensures
        pow10(a + b) == pow10(a) * pow10(b),
    decreases a,
{
    if a == 0 {
    } else {
        lemma_pow10_add((a - 1) as nat, b);
        assert(pow10(a + b) == 10 * pow10((a + b - 1) as nat));
        assert(10 * (pow10((a - 1) as nat) * pow10(b)) == (10 * pow10((a - 1) as nat)) * pow10(b))
            by (nonlinear_arith);
    }
}

pub proof fn lemma_pow10_18()
    ensures
        pow10(18) == UNITS_PER_TOKEN as int,
        (u64::MAX as int) * pow10(18) == MAX_AMOUNT_UNITS as int,
{
    assert(pow10(18) == 1_000_000_000_000_000_000) by {
        reveal_with_fuel(pow10, 19);
    }
}

impl Fixed128 {
    /// The amount of zero units.
    pub fn zero() -> (r: Self)
        ensures
            r@ == 0,
            r == fixed_units(0),
    {
        Fixed128 { units: 0 }
    }

    /// A whole number of tokens.
    pub fn from_u64(x: u64) -> (r: Self)
        ensures
            r@ == x as int * pow10(18),
            fixed_in_range(r@),
    {
        proof {
            lemma_pow10_18();
            assert((x as u128) * (UNITS_PER_TOKEN as u128) <= (u64::MAX as u128) * (
            UNITS_PER_TOKEN as u128)) by (nonlinear_arith)
                requires
                    x as u128 <= u64::MAX as u128,
            ;
            assert((u64::MAX as u128) * (UNITS_PER_TOKEN as u128) == MAX_AMOUNT_UNITS as u128);
        }
        Fixed128 { units: (x as u128) * UNITS_PER_TOKEN }
    }

    pub fn is_zero(&self) -> (r: bool)
        ensures
            r == (self@ == 0),
    {
        self.units == 0
    }

    pub fn le(&self, other: &Self) -> (r: bool)
        ensures
            r == (self@ <= other@),
    {
        self.units <= other.units
    }

    pub fn lt(&self, other: &Self) -> (r: bool)
        ensures
            r == (self@ < other@),
    {
        self.units < other.units
    }

    /// The smaller of two amounts.
    pub fn min(self, other: Self) -> (r: Self)
        ensures
            r == if self@ <= other@ {
                self
            } else {
                other
            },
    {
        if self.units <= other.units {
            self
        } else {
            other
        }
    }

    pub fn checked_add(self, other: Self) -> (r: Option<Self>)
        ensures
            match r {
                Some(v) => v == fixed_units(self@ + other@) && self@ + other@ <= u128::MAX as int
                    && v@ == self@ + other@,
                None => self@ + other@ > u128::MAX as int,
            },
    {
        match self.units.checked_add(other.units) {
            Some(u) => Some(Fixed128 { units: u }),
            None => None,
        }
    }

    /// Sum of two amounts, callable where the sum is known to fit.
    pub fn add(self, other: Self) -> (r: Self)
        requires
            self@ + other@ <= u128::MAX as int,
        ensures
            r == fixed_units(self@ + other@),
            r@ == self@ + other@,
    {
        Fixed128 { units: self.units + other.units }
    }

    pub fn checked_sub(self, other: Self) -> (r: Option<Self>)
        ensures
            match r {
                Some(v) => v == fixed_units(self@ - other@) && self@ >= other@ && v@ == self@
                    - other@,
                None => self@ < other@,
            },
    {
        match self.units.checked_sub(other.units) {
            Some(u) => Some(Fixed128 { units: u }),
            None => None,
        }
    }

    /// Difference of two amounts, callable where no underflow can happen.
    pub fn sub(self, other: Self) -> (r: Self)
        requires
            self@ >= other@,
        ensures
            r == fixed_units(self@ - other@),
            r@ == self@ - other@,
    {
        Fixed128 { units: self.units - other.units }
    }

    /// How many fractional decimal digits the amount actually uses: 18 minus
    /// the number of trailing decimal zeros of its unit count.
    pub fn scale(&self) -> (r: u8)
        ensures
            r as int == scale_of(self@, 18),
    {
        let mut u: u128 = self.units;
        let mut d: u8 = 18;
        while d > 0 && u % 10 == 0
            invariant
                0 <= d <= 18,
                scale_of(self@, 18) == scale_of(u as int, d as int),
            decreases d,
        {
            u = u / 10;
            d = d - 1;
        }
        d
    }
}

/// The scale that remains after stripping at most `d` trailing zero digits.
pub open spec fn scale_of(u: int, d: int) -> int
    decreases
            (if d >= 0 {
                d
            } else {
                0
            }),
{
    if d <= 0 || u % 10 != 0 {
        d
    } else {
        scale_of(u / 10, d - 1)
    }
}

pub open spec fn is_dec_digit(b: u8) -> bool {
    48 <= b <= 57
}

pub open spec fn all_dec_digits(s: Seq<u8>) -> bool {
    forall|i: int| 0 <= i < s.len() ==> is_dec_digit(#[trigger] s[i])
}

/// The integer denoted by a string of decimal digits, most significant first.
pub open spec fn digits_to_int(s: Seq<u8>) -> int
    decreases s.len(),
{
    if s.len() == 0 {
        0
    } else {
        10 * digits_to_int(s.drop_last()) + (s.last() - 48)
    }
}

/// Index of the first `.` in `s`, or `s.len()` if there is none.
pub open spec fn first_dot(s: Seq<u8>) -> int
    decreases s.len(),
{
    if s.len() == 0 {
        0
    } else if s[0] == 46 {
        0
    } else {
        1 + first_dot(s.skip(1))
    }
}

proof fn lemma_first_dot_at(s: Seq<u8>, i: int)
    requires
        0 <= i < s.len(),
        s[i] == 46,
        forall|j: int| 0 <= j < i ==> s[j] != 46,
    ensures
        first_dot(s) == i,
    decreases i,
{
    if i > 0 {
        lemma_first_dot_at(s.skip(1), i - 1);
    }
}

proof fn lemma_first_dot_none(s: Seq<u8>)
    requires
        forall|j: int| 0 <= j < s.len() ==> s[j] != 46,
    ensures
        first_dot(s) == s.len(),
    decreases s.len(),
{
    if s.len() > 0 {
        lemma_first_dot_none(s.skip(1));
    }
}

proof fn lemma_digits_nonneg(s: Seq<u8>)
    requires
        all_dec_digits(s),
    ensures
        digits_to_int(s) >= 0,
    decreases s.len(),
{
    if s.len() > 0 {
        assert(all_dec_digits(s.drop_last()));
        lemma_digits_nonneg(s.drop_last());
    }
}

proof fn lemma_digits_bound(s: Seq<u8>)
    requires
        all_dec_digits(s),
    ensures
        0 <= digits_to_int(s) < pow10(s.len()),
    decreases s.len(),
{
    if s.len() == 0 {
    } else {
        assert(all_dec_digits(s.drop_last()));
        lemma_digits_bound(s.drop_last());
        lemma_pow10_pos((s.len() - 1) as nat);
        assert(digits_to_int(s.drop_last()) <= pow10((s.len() - 1) as nat) - 1);
        assert(10 * digits_to_int(s.drop_last()) <= 10 * (pow10((s.len() - 1) as nat) - 1))
            by (nonlinear_arith)
            requires
                digits_to_int(s.drop_last()) <= pow10((s.len() - 1) as nat) - 1,
        ;
    }
}

/// What the protocol's decimal grammar makes of a byte string: the amount in
/// units, or the exact rejection. Numeric strings must be plain decimal
/// digits with at most one inner dot, no sign, no spaces, at most 18
/// fractional digits, and at most u64::MAX whole tokens.
pub open spec fn spec_parse_decimal(s: Seq<u8>) -> Result<int, Brc4ParseErr> {
    if s.len() == 0 {
        Err(Brc4ParseErr::DecimalEmpty)
    } else if s[0] == 43 || s[0] == 45 {
        Err(Brc4ParseErr::DecimalPlusMinus)
    } else if s[0] == 46 || s.last() == 46 {
        Err(Brc4ParseErr::DecimalDotStartEnd)
    } else if s[0] == 32 || s.last() == 32 {
        Err(Brc4ParseErr::DecimalSpaces)
    } else {
        let d = first_dot(s);
        let intp = s.take(d);
        let frac = if d == s.len() {
            Seq::<u8>::empty()
        } else {
            s.skip(d + 1)
        };
        if !(all_dec_digits(intp) && all_dec_digits(frac)) {
            Err(Brc4ParseErr::InvalidDigit)
        } else if frac.len() > 18 {
            Err(Brc4ParseErr::DecimalOverflow)
        } else {
            let v = digits_to_int(intp) * pow10(18) + digits_to_int(frac) * pow10(
                (18 - frac.len()) as nat,
            );
            if v > (u64::MAX as int) * pow10(18) {
                Err(Brc4ParseErr::DecimalOverflow)
            } else {
                Ok(v)
            }
        }
    }
}

/// Exec power of ten, for assembling fractional units.
fn pow10_u128(k: usize) -> (r: u128)
    requires
        k <= 18,
    ensures
        r as int == pow10(k as nat),
{
    let mut r: u128 = 1;
    let mut i: usize = 0;
    proof {
        lemma_pow10_18();
    }
    while i < k
        invariant
            0 <= i <= k <= 18,
            r as int == pow10(i as nat),
            pow10(18) == UNITS_PER_TOKEN as int,
        decreases k - i,
    {
        proof {
            lemma_pow10_pos(i as nat);
            lemma_pow10_add(i as nat, (18 - i) as nat);
            lemma_pow10_pos((18 - i - 1) as nat);
            assert(pow10((18 - i) as nat) == 10 * pow10((18 - i - 1) as nat));
            assert(pow10(i as nat) * (10 * pow10((18 - i - 1) as nat)) == (10 * pow10(i as nat))
                * pow10((18 - i - 1) as nat)) by (nonlinear_arith);
            assert(10 * pow10(i as nat) <= (10 * pow10(i as nat)) * pow10((18 - i - 1) as nat))
                by (nonlinear_arith)
                requires
                    pow10(i as nat) >= 1 && pow10((18 - i - 1) as nat) >= 1,
            ;
        }
        r = r * 10;
        i = i + 1;
    }
    r
}

/// Parse a protocol decimal string into an amount, classifying every
/// rejection exactly as `spec_parse_decimal` does.
pub fn parse_decimal(s: &[u8]) -> (r: Result<Fixed128, Brc4ParseErr>)
    ensures
        match r {
            Ok(v) => spec_parse_decimal(s@) == Ok::<int, Brc4ParseErr>(v@) && fixed_in_range(v@),
            Err(e) => spec_parse_decimal(s@) == Err::<int, Brc4ParseErr>(e),
        },
{
    let n = s.len();
    if n == 0 {
        return Err(Brc4ParseErr::DecimalEmpty);
    }
    let b0 = s[0];
    let bl = s[n - 1];
    if b0 == 43 || b0 == 45 {
        return Err(Brc4ParseErr::DecimalPlusMinus);
    }
    if b0 == 46 || bl == 46 {
        return Err(Brc4ParseErr::DecimalDotStartEnd);
    }
    if b0 == 32 || bl == 32 {
        return Err(Brc4ParseErr::DecimalSpaces);
    }
    // First pass: find the single dot and check every other byte is a digit.
    let mut i: usize = 0;
    let mut dot: usize = n;
    while i < n
        invariant
            0 <= i <= n,
            n == s@.len(),
            n > 0,
            !(s@[0] == 43 || s@[0] == 45),
            !(s@[0] == 46 || s@.last() == 46),
            !(s@[0] == 32 || s@.last() == 32),
            dot == n || (0 <= dot < i && s@[dot as int] == 46),
            forall|j: int| 0 <= j < i && j != dot ==> is_dec_digit(#[trigger] s@[j]),
            forall|j: int|
                0 <= j < i && j < dot ==> s@[j] != 46,
        decreases n - i,
    {
        let b = s[i];
        if b == 46 {
            if dot < n {
                // second dot: it lies in the fractional part, which is not all digits
                proof {
                    lemma_first_dot_at(s@, dot as int);
                    let frac = s@.skip(dot + 1);
                    assert(frac[i - dot - 1] == 46);
                    assert(!all_dec_digits(frac)) by {
                        assert(!is_dec_digit(frac[i - dot - 1]));
                    }
                }
                return Err(Brc4ParseErr::InvalidDigit);
            }
            dot = i;
        } else if !(48 <= b && b <= 57) {
            proof {
                lemma_first_dot_fixed(s@);
                if dot < n {
                    lemma_first_dot_at(s@, dot as int);
                    let frac = s@.skip(dot + 1);
                    assert(frac[i - dot - 1] == s@[i as int]);
                    assert(!all_dec_digits(frac)) by {
                        assert(!is_dec_digit(frac[i - dot - 1]));
                    }
                } else {
                    let fd = first_dot(s@);
                    if fd > i {
                        let intp = s@.take(fd);
                        assert(intp[i as int] == s@[i as int]);
                        assert(!all_dec_digits(intp)) by {
                            assert(!is_dec_digit(intp[i as int]));
                        }
                    } else {
                        // no dot among 0..=i, so the first dot cannot lie at or before i
                        assert(false);
                    }
                }
            }
            return Err(Brc4ParseErr::InvalidDigit);
        }
        i = i + 1;
    }
    proof {
        if dot < n {
            lemma_first_dot_at(s@, dot as int);
        } else {
            lemma_first_dot_none(s@);
        }
    }
    let ghost fd = first_dot(s@);
    let ghost intp = s@.take(fd);
    let ghost frac = if fd == s@.len() {
        Seq::<u8>::empty()
    } else {
        s@.skip(fd + 1)
    };
    proof {
        assert(all_dec_digits(intp));
        assert(all_dec_digits(frac));
    }
    let frac_len: usize = if dot < n {
        n - dot - 1
    } else {
        0
    };
    proof {
        assert(frac.len() == frac_len as int);
    }
    if frac_len > 18 {
        return Err(Brc4ParseErr::DecimalOverflow);
    }
    // Second pass: whole-token digits.
    let int_len: usize = if dot < n {
        dot
    } else {
        n
    };
    let mut int_val: u128 = 0;
    let mut big = false;
    let mut j: usize = 0;
    while j < int_len
        invariant
            0 <= j <= int_len <= n,
            n == s@.len(),
            int_len as int == fd,
            intp == s@.take(fd),
            all_dec_digits(intp),
            forall|k: int| 0 <= k < int_len ==> is_dec_digit(#[trigger] s@[k]),
            !big ==> int_val as int == digits_to_int(s@.take(j as int)) && int_val <= u64::MAX
                as u128,
            big ==> digits_to_int(s@.take(j as int)) > u64::MAX as int,
        decreases int_len - j,
    {
        let d = s[j];
        proof {
            assert(s@.take(j + 1).drop_last() =~= s@.take(j as int));
            assert(s@.take(j + 1).last() == s@[j as int]);
        }
        if !big {
            int_val = int_val * 10 + (d - 48) as u128;
            if int_val > u64::MAX as u128 {
                big = true;
            }
        } else {
            proof {
                assert(all_dec_digits(s@.take(j as int))) by {
                    assert(forall|k: int|
                        0 <= k < j ==> #[trigger] s@.take(j as int)[k] == s@[k]);
                }
                lemma_digits_nonneg(s@.take(j as int));
                assert(digits_to_int(s@.take(j + 1)) == 10 * digits_to_int(s@.take(j as int)) + (
                s@[j as int] - 48));
                assert(10 * digits_to_int(s@.take(j as int)) > 10 * (u64::MAX as int))
                    by (nonlinear_arith)
                    requires
                        digits_to_int(s@.take(j as int)) > u64::MAX as int,
                ;
            }
        }
        j = j + 1;
    }
    proof {
        assert(s@.take(int_len as int) == intp);
        lemma_pow10_18();
    }
    if big {
        proof {
            lemma_digits_nonneg(frac);
            lemma_digits_bound(frac);
            lemma_pow10_pos((18 - frac.len()) as nat);
            lemma_digits_nonneg(intp);
            assert(digits_to_int(intp) * pow10(18) > (u64::MAX as int) * pow10(18))
                by (nonlinear_arith)
                requires
                    digits_to_int(intp) > u64::MAX as int,
                    pow10(18) >= 1,
            ;
            assert(digits_to_int(frac) * pow10((18 - frac.len()) as nat) >= 0)
                by (nonlinear_arith)
                requires
                    digits_to_int(frac) >= 0,
                    pow10((18 - frac.len()) as nat) >= 1,
            ;
        }
        return Err(Brc4ParseErr::DecimalOverflow);
    }
    // Third pass: fractional digits.
    let mut frac_val: u128 = 0;
    let mut k: usize = 0;
    while k < frac_len
        invariant
            0 <= k <= frac_len <= 18,
            n == s@.len(),
            dot <= n,
            fd == dot as int,
            frac_len as int == frac.len(),
            dot < n ==> frac_len == n - dot - 1 && frac == s@.skip(dot + 1),
            dot == n ==> frac == Seq::<u8>::empty(),
            all_dec_digits(frac),
            frac_val as int == digits_to_int(frac.take(k as int)),
            (frac_val as int) < (pow10(k as nat)),
        decreases frac_len - k,
    {
        let d = s[dot + 1 + k];
        proof {
            assert(frac.take(k + 1).drop_last() =~= frac.take(k as int));
            assert(frac.take(k + 1).last() == frac[k as int]);
            assert(frac[k as int] == s@[dot + 1 + k]);
            lemma_pow10_pos(k as nat);
            assert(all_dec_digits(frac.take(k + 1))) by {
                assert(forall|t: int|
                    0 <= t < k + 1 ==> #[trigger] frac.take(k + 1)[t] == frac[t]);
            }
            lemma_digits_bound(frac.take(k + 1));
            assert(frac.take(k + 1).len() == k + 1);
            lemma_pow10_18();
            lemma_pow10_add(k as nat, (18 - k) as nat);
            lemma_pow10_pos((18 - k) as nat);
            assert(pow10((k + 1) as nat) <= pow10(18)) by {
                lemma_pow10_add((k + 1) as nat, (18 - k - 1) as nat);
                lemma_pow10_pos((k + 1) as nat);
                lemma_pow10_pos((18 - k - 1) as nat);
                assert(pow10((k + 1) as nat) * pow10((18 - k - 1) as nat) >= pow10((k + 1) as nat)
                    * 1) by (nonlinear_arith)
                    requires
                        pow10((18 - k - 1) as nat) >= 1,
                        pow10((k + 1) as nat) >= 0,
                ;
            }
        }
        frac_val = frac_val * 10 + (d - 48) as u128;
        k = k + 1;
    }
    proof {
        assert(frac.take(frac_len as int) == frac);
    }
    let mult = pow10_u128(18 - frac_len);
    proof {
        lemma_pow10_18();
        lemma_pow10_add(frac_len as nat, (18 - frac_len) as nat);
        lemma_digits_bound(frac);
        lemma_digits_nonneg(frac);
        lemma_pow10_pos((18 - frac_len) as nat);
        lemma_pow10_pos(frac_len as nat);
        assert(digits_to_int(frac) * pow10((18 - frac_len) as nat) < pow10(frac_len as nat)
            * pow10((18 - frac_len) as nat)) by (nonlinear_arith)
            requires
                digits_to_int(frac) < pow10(frac_len as nat),
                pow10((18 - frac_len) as nat) >= 1,
        ;
        assert(digits_to_int(frac) * pow10((18 - frac_len) as nat) >= 0) by (nonlinear_arith)
            requires
                digits_to_int(frac) >= 0,
                pow10((18 - frac_len) as nat) >= 1,
        ;
        assert(int_val as int * pow10(18) <= (u64::MAX as int) * pow10(18)) by (nonlinear_arith)
            requires
                int_val as int <= u64::MAX as int,
                pow10(18) >= 1,
        ;
        assert(int_val as int * pow10(18) >= 0) by (nonlinear_arith)
            requires
                int_val as int >= 0,
                pow10(18) >= 1,
        ;
    }
    let units: u128 = int_val * UNITS_PER_TOKEN + frac_val * mult;
    if units > MAX_AMOUNT_UNITS {
        return Err(Brc4ParseErr::DecimalOverflow);
    }
    Ok(Fixed128 { units })
}

proof fn lemma_first_dot_fixed(s: Seq<u8>)
    ensures
        0 <= first_dot(s) <= s.len(),
        first_dot(s) < s.len() ==> s[first_dot(s)] == 46,
        forall|j: int| 0 <= j < first_dot(s) ==> s[j] != 46,
    decreases s.len(),
{
    if s.len() > 0 && s[0] != 46 {
        lemma_first_dot_fixed(s.skip(1));
        assert(forall|j: int| 0 <= j < first_dot(s.skip(1)) ==> s.skip(1)[j] != 46);
        assert(forall|j: int| 1 <= j < first_dot(s) ==> s[j] == s.skip(1)[j - 1]);
    }
}

} // verus!
