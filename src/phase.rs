//! Phases: elements of the unit circle, given as exact fractions of pi.

use vstd::prelude::*;

verus! {

/// The angle `num / den * pi`, held exactly.
#[derive(Clone, Copy, Debug, PartialEq, Eq, Structural)]
pub struct Angle {
    num: i64,
    den: u64,
}

/// `a` halved `n` times.
pub open spec fn halve_n(a: Angle, n: nat) -> Angle
    decreases n,
{
    if n == 0 {
        a
    } else {
        halve_n(a, (n - 1) as nat).spec_half()
    }
}

impl Angle {
    /// The numerator of the fraction of pi.
    pub closed spec fn spec_num(self) -> i64 {
        self.num
    }

    /// The denominator of the fraction of pi.
    pub closed spec fn spec_den(self) -> u64 {
        self.den
    }

    /// The denominator is positive and the numerator can be negated.
    pub open spec fn wf(self) -> bool {
        self.spec_den() > 0 && self.spec_num() > i64::MIN
    }

    #[verifier::type_invariant]
    closed spec fn inv(self) -> bool {
        self.den > 0 && self.num > i64::MIN
    }

    /// `self` stands for the fraction `n / d` of pi (compared by cross-multiplication).
    pub open spec fn denotes(self, n: int, d: int) -> bool {
        self.spec_num() * d == n * self.spec_den()
    }

    /// The negated angle.
    pub closed spec fn spec_neg(self) -> Angle {
        Angle { num: (-self.num) as i64, den: self.den }
    }

    /// Half the angle: exact while the denominator can double; past that the
    /// numerator is rounded toward zero to an even number first.
    pub closed spec fn spec_half(self) -> Angle {
        if self.num % 2 == 0 {
            Angle { num: (self.num / 2) as i64, den: self.den }
        } else if self.den <= u64::MAX / 2 {
            Angle { num: self.num, den: (self.den * 2) as u64 }
        } else if self.num > 0 {
            Angle { num: ((self.num - 1) / 2) as i64, den: self.den }
        } else {
            Angle { num: ((self.num + 1) / 2) as i64, den: self.den }
        }
    }

    /// The angle `num / den * pi` as a value.
    pub closed spec fn spec_new(num: i64, den: u64) -> Angle {
        Angle { num, den }
    }

    /// Construct the angle `num / den * pi`.
    pub fn new(num: i64, den: u64) -> (r: Angle)
        requires
            den > 0,
            num > i64::MIN,
        ensures
            r == Angle::spec_new(num, den),
            r.spec_num() == num,
            r.spec_den() == den,
            r.wf(),
    {
        Angle { num, den }
    }

    /// The numerator of the fraction of pi.
    pub fn num(&self) -> (r: i64)
        ensures
            r == self.spec_num(),
            r > i64::MIN,
    {
        proof {
            use_type_invariant(self);
        }
        self.num
    }

    /// The denominator of the fraction of pi.
    pub fn den(&self) -> (r: u64)
        ensures
            r == self.spec_den(),
            r > 0,
    {
        proof {
            use_type_invariant(self);
        }
        self.den
    }

    /// The negated angle.
    pub fn neg(self) -> (r: Angle)
        ensures
            r == self.spec_neg(),
            r.wf(),
            r.denotes(-self.spec_num(), self.spec_den() as int),
    {
        proof {
            use_type_invariant(self);
        }
        Angle { num: -self.num, den: self.den }
    }

    /// Half the angle (see `spec_half`).
    pub fn half(self) -> (r: Angle)
        ensures
            r == self.spec_half(),
            r.wf(),
            self.spec_den() <= u64::MAX / 2 ==> r.denotes(self.spec_num() as int, 2 * self.spec_den()),
    {
        proof {
            use_type_invariant(self);
        }
        if self.num % 2 == 0 {
            let h = self.num / 2;
            proof {
                let n = self.num as int;
                let d = self.den as int;
                assert(n == 2 * h);
                assert(h * (2 * d) == n * d) by (nonlinear_arith)
                    requires
                        n == 2 * h,
                ;
            }
            Angle { num: h, den: self.den }
        } else if self.den <= u64::MAX / 2 {
            Angle { num: self.num, den: self.den * 2 }
        } else if self.num > 0 {
            Angle { num: (self.num - 1) / 2, den: self.den }
        } else {
            Angle { num: (self.num + 1) / 2, den: self.den }
        }
    }
}

/// The running multiplier `(-1)^negated / 2^halvings` that the inverse and
/// square-root macros apply to the phases beneath them.
#[derive(Clone, Copy, Debug, PartialEq, Eq, Structural)]
pub struct PhaseMul {
    /// Whether an odd number of inverses encloses the phase.
    pub negated: bool,
    /// The number of square roots that enclose the phase (saturating).
    pub halvings: u64,
}

impl PhaseMul {
    /// `self` applied to `a`: halved `halvings` times, then negated if `negated`.
    pub open spec fn spec_apply(self, a: Angle) -> Angle {
        let h = halve_n(a, self.halvings as nat);
        if self.negated {
            h.spec_neg()
        } else {
            h
        }
    }

    /// The multiplier for the inverse of a term, as a value.
    pub open spec fn spec_inverse(self) -> PhaseMul {
        PhaseMul { negated: !self.negated, halvings: self.halvings }
    }

    /// The multiplier for the square root of a term, as a value.
    pub open spec fn spec_sqrt(self) -> PhaseMul {
        PhaseMul {
            negated: self.negated,
            halvings: if self.halvings < u64::MAX {
                (self.halvings + 1) as u64
            } else {
                self.halvings
            },
        }
    }

    /// The multiplier one, as a value.
    pub open spec fn spec_one() -> PhaseMul {
        PhaseMul { negated: false, halvings: 0 }
    }

    /// The multiplier one.
    pub fn one() -> (r: PhaseMul)
        ensures
            r == PhaseMul::spec_one(),
    {
        PhaseMul { negated: false, halvings: 0 }
    }

    /// The multiplier for the inverse of a term.
    pub fn inverse(self) -> (r: PhaseMul)
        ensures
            r == self.spec_inverse(),
    {
        PhaseMul { negated: !self.negated, halvings: self.halvings }
    }

    /// The multiplier for the square root of a term.
    pub fn sqrt(self) -> (r: PhaseMul)
        ensures
            r == self.spec_sqrt(),
    {
        PhaseMul {
            negated: self.negated,
            halvings: if self.halvings < u64::MAX {
                self.halvings + 1
            } else {
                self.halvings
            },
        }
    }

    /// The multiplier applied to the angle `a`.
    pub fn apply(self, a: Angle) -> (r: Angle)
        ensures
            r == self.spec_apply(a),
            r.wf(),
    {
        let mut h = a;
        let mut i: u64 = 0;
        while i < self.halvings
            invariant
                i <= self.halvings,
                h == halve_n(a, i as nat),
            decreases self.halvings - i,
        {
            h = h.half();
            i = i + 1;
        }
        proof {
            use_type_invariant(h);
        }
        if self.negated {
            h.neg()
        } else {
            h
        }
    }
}

/// A global phase operation.
#[derive(Clone, Copy, Debug, PartialEq, Eq, Structural)]
pub enum Phase {
    /// The phase given by an angle, as a fraction of pi.
    Angle(Angle),
    /// The phase -1, the angle pi.
    MinusOne,
    /// The phase i, the angle pi/2.
    Imag,
    /// The phase -i, the angle 3pi/2.
    MinusImag,
}

/// The phase for angle `a`, with the exact variants where `a` is pi/2, pi or 3pi/2.
pub open spec fn spec_from_angle(a: Angle) -> Phase {
    if a.denotes(1, 2) {
        Phase::Imag
    } else if a.denotes(1, 1) {
        Phase::MinusOne
    } else if a.denotes(3, 2) {
        Phase::MinusImag
    } else {
        Phase::Angle(a)
    }
}

impl Phase {
    /// The angle of the phase, as a fraction of pi.
    pub open spec fn spec_eval(self) -> Angle {
        match self {
            Phase::Angle(a) => a,
            Phase::MinusOne => Angle::spec_new(1, 1),
            Phase::Imag => Angle::spec_new(1, 2),
            Phase::MinusImag => Angle::spec_new(3, 2),
        }
    }

    /// Construct a `Phase` from an angle, given as a fraction of pi.
    /// Uses the exact variants when the angle is 1/2, 1 or 3/2.
    pub fn from_angle(a: Angle) -> (r: Phase)
        ensures
            r == spec_from_angle(a),
    {
        let n = a.num() as i128;
        let d = a.den() as i128;
        if 2 * n == d {
            Phase::Imag
        } else if n == d {
            Phase::MinusOne
        } else if 2 * n == 3 * d {
            Phase::MinusImag
        } else {
            Phase::Angle(a)
        }
    }

    /// Returns the angle of this phase, as a fraction of pi.
    pub fn eval(&self) -> (r: Angle)
        ensures
            r == self.spec_eval(),
    {
        match self {
            Phase::Angle(a) => *a,
            Phase::MinusOne => Angle::new(1, 1),
            Phase::Imag => Angle::new(1, 2),
            Phase::MinusImag => Angle::new(3, 2),
        }
    }
}

/// Every byte is an ASCII decimal digit.
pub open spec fn all_digits(s: Seq<u8>) -> bool {
    forall|i: int| 0 <= i < s.len() ==> 48 <= #[trigger] s[i] <= 57
}

/// The number that a string of decimal digits denotes.
pub open spec fn digits_value(s: Seq<u8>) -> nat
    decreases s.len(),
{
    if s.len() == 0 {
        0
    } else {
        digits_value(s.drop_last()) * 10 + (s.last() - 48) as nat
    }
}

/// Ten to the power `k`.
pub open spec fn pow10(k: nat) -> nat
    decreases k,
{
    if k == 0 {
        1
    } else {
        10 * pow10((k - 1) as nat)
    }
}

/// The angle written in decimal as `int_digits.frac_digits` (negated if
/// `negative`), as a fraction of pi with denominator `10^k` for `k` fraction
/// digits; `None` when a byte is not a digit or a part does not fit.
pub open spec fn decimal_angle(negative: bool, int_digits: Seq<u8>, frac_digits: Seq<u8>) -> Option<Angle> {
    let mag = digits_value(int_digits + frac_digits);
    let den = pow10(frac_digits.len());
    if !all_digits(int_digits) || !all_digits(frac_digits) || mag > i64::MAX || den > u64::MAX {
        None
    } else {
        Some(
            Angle::spec_new(
                if negative {
                    (-mag) as i64
                } else {
                    mag as i64
                },
                den as u64,
            ),
        )
    }
}

/// The value of a prefix of a digit string is at most that of the whole.
proof fn lemma_digits_value_prefix(s: Seq<u8>, i: int)
    requires
        0 <= i <= s.len(),
        all_digits(s),
    ensures
        digits_value(s.subrange(0, i)) <= digits_value(s),
        i < s.len() ==> digits_value(s.subrange(0, i + 1)) == digits_value(s.subrange(0, i)) * 10 + (s[i]
            - 48) as nat,
    decreases s.len() - i,
{
    if i < s.len() {
        assert(s.subrange(0, i + 1).drop_last() =~= s.subrange(0, i));
        lemma_digits_value_prefix(s, i + 1);
    } else {
        assert(s.subrange(0, i) =~= s);
    }
}

/// Powers of ten grow with the exponent.
proof fn lemma_pow10_mono(a: nat, b: nat)
    requires
        a <= b,
    ensures
        pow10(a) <= pow10(b),
    decreases b - a,
{
    if a < b {
        lemma_pow10_mono(a, (b - 1) as nat);
    }
}

impl Angle {
    /// The angle written in decimal as `int_digits.frac_digits` times pi,
    /// negated if `negative`. `None` when a byte is not a decimal digit, or
    /// when the numerator or the denominator does not fit.
    pub fn from_decimal(negative: bool, int_digits: &[u8], frac_digits: &[u8]) -> (r: Option<Angle>)
        ensures
            r == decimal_angle(negative, int_digits@, frac_digits@),
    {
        let ghost all = int_digits@ + frac_digits@;
        let mut i: usize = 0;
        while i < int_digits.len()
            invariant
                i <= int_digits@.len(),
                all_digits(int_digits@.subrange(0, i as int)),
            decreases int_digits@.len() - i,
        {
            if int_digits[i] < 48 || int_digits[i] > 57 {
                return None;
            }
            i = i + 1;
        }
        assert(int_digits@.subrange(0, i as int) =~= int_digits@);
        let mut j: usize = 0;
        let mut den: u64 = 1;
        while j < frac_digits.len()
            invariant
                j <= frac_digits@.len(),
                all_digits(frac_digits@.subrange(0, j as int)),
                den == pow10(j as nat),
                den >= 1,
            decreases frac_digits@.len() - j,
        {
            if frac_digits[j] < 48 || frac_digits[j] > 57 {
                return None;
            }
            if den > u64::MAX / 10 {
                proof {
                    lemma_pow10_mono((j + 1) as nat, frac_digits@.len());
                }
                return None;
            }
            den = den * 10;
            j = j + 1;
        }
        assert(frac_digits@.subrange(0, j as int) =~= frac_digits@);
        assert(all_digits(all));
        let mut mag: u64 = 0;
        let mut k: usize = 0;
        while k < int_digits.len()
            invariant
                all == int_digits@ + frac_digits@,
                all_digits(all),
                k <= int_digits@.len(),
                mag == digits_value(all.subrange(0, k as int)),
                mag <= i64::MAX,
                den == pow10(frac_digits@.len()),
                den >= 1,
            decreases int_digits@.len() - k,
        {
            let b = int_digits[k];
            assert(b == all[k as int]);
            proof {
                lemma_digits_value_prefix(all, k as int);
                lemma_digits_value_prefix(all, k as int + 1);
            }
            let d = (b - 48) as u64;
            if mag > (i64::MAX as u64 - d) / 10 {
                return None;
            }
            mag = mag * 10 + d;
            k = k + 1;
        }
        let mut f: usize = 0;
        while f < frac_digits.len()
            invariant
                all == int_digits@ + frac_digits@,
                all_digits(all),
                k == int_digits@.len(),
                f <= frac_digits@.len(),
                mag == digits_value(all.subrange(0, k + f)),
                mag <= i64::MAX,
                den == pow10(frac_digits@.len()),
                den >= 1,
            decreases frac_digits@.len() - f,
        {
            let b = frac_digits[f];
            assert(b == all[k + f]);
            proof {
                lemma_digits_value_prefix(all, k + f);
                lemma_digits_value_prefix(all, k + f + 1);
            }
            let d = (b - 48) as u64;
            if mag > (i64::MAX as u64 - d) / 10 {
                return None;
            }
            mag = mag * 10 + d;
            f = f + 1;
        }
        assert(all.subrange(0, k + f) =~= all);
        let num: i64 = if negative {
            -(mag as i64)
        } else {
            mag as i64
        };
        Some(Angle::new(num, den))
    }
}

} // verus!
