use vstd::prelude::*;

verus! {

/// A non-negative rational number `num / den`; `den` is positive in every
/// value this library builds.
#[derive(Clone, Copy, Debug)]
pub struct Fraction {
    pub num: u64,
    pub den: u64,
}

impl Fraction {
    pub open spec fn wf(self) -> bool {
        self.den > 0
    }

    /// The rational number this value stands for.
    pub open spec fn value(self) -> (int, int) {
        (self.num as int, self.den as int)
    }

    /// Builds `num / den`.
    pub fn new(num: u64, den: u64) -> (r: Fraction)
        requires
            den > 0,
        ensures
            r.num == num,
            r.den == den,
            r.wf(),
    {
        Fraction { num, den }
    }
}

/// The product of two `u64` values fits in a `u128`.
proof fn lemma_u64_product_fits(x: u64, y: u64)
    ensures
        0 <= (x as int) * (y as int) <= u128::MAX,
{
    assert(0 <= (x as int) * (y as int) <= (u64::MAX as int) * (u64::MAX as int)) by (nonlinear_arith)
        requires
            0 <= x <= u64::MAX,
            0 <= y <= u64::MAX,
    ;
}

/// `a > b` for fractions with positive denominators.
pub open spec fn frac_gt(a: Fraction, b: Fraction) -> bool {
    (a.num as int) * (b.den as int) > (b.num as int) * (a.den as int)
}

/// `a == b` as rational numbers.
pub open spec fn frac_eq(a: Fraction, b: Fraction) -> bool {
    (a.num as int) * (b.den as int) == (b.num as int) * (a.den as int)
}

/// Exact comparison `a > b` of two fractions.
pub fn greater_than(a: Fraction, b: Fraction) -> (r: bool)
    ensures
        r == frac_gt(a, b),
{
    proof {
        lemma_u64_product_fits(a.num, b.den);
        lemma_u64_product_fits(b.num, a.den);
    }
    let l: u128 = (a.num as u128) * (b.den as u128);
    let rr: u128 = (b.num as u128) * (a.den as u128);
    l > rr
}

/// The minimum number of single-character insertions, deletions and
/// substitutions that turn `a` into `b`.
pub uninterp spec fn levenshtein_of(a: Seq<char>, b: Seq<char>) -> nat;

/// Relies on `strsim::levenshtein`: the Levenshtein distance between the
/// character sequences of `a` and `b`; no more than the longer length, and
/// zero between equal strings.
#[verifier::external_body]
fn levenshtein(a: &str, b: &str) -> (r: usize)
    ensures
        r == levenshtein_of(a@, b@),
        r <= a@.len() || r <= b@.len(),
        r == 0 <==> a@ == b@,
{
    strsim::levenshtein(a, b)
}

/// The longer of the two lengths.
pub open spec fn longer_len(a: Seq<char>, b: Seq<char>) -> int {
    if a.len() >= b.len() {
        a.len() as int
    } else {
        b.len() as int
    }
}

/// The normalized similarity of two messages: `1 - distance / longer length`,
/// written `1 / 1` when they are equal (both empty included).
pub open spec fn score_of(a: Seq<char>, b: Seq<char>) -> Fraction {
    let m = longer_len(a, b);
    if a == b {
        Fraction { num: 1, den: 1 }
    } else {
        Fraction { num: (m - levenshtein_of(a, b)) as u64, den: m as u64 }
    }
}

/// True when the fraction stands for exactly one.
pub open spec fn is_one(f: Fraction) -> bool {
    f.num == f.den && f.den > 0
}

/// Computes the normalized similarity of `a` and `b` as an exact fraction.
pub fn similarity(a: &str, b: &str) -> (r: Fraction)
    ensures
        r == score_of(a@, b@),
        r.wf(),
        r.num <= r.den,
        a@ == b@ ==> is_one(r),
{
    proof {
        if a@.len() == 0 && b@.len() == 0 {
            assert(a@ =~= b@);
        }
    }
    let la = a.unicode_len();
    let lb = b.unicode_len();
    let m: usize = if la >= lb { la } else { lb };
    if m == 0 {
        return Fraction { num: 1, den: 1 };
    }
    let d = levenshtein(a, b);
    if d == 0 {
        Fraction { num: 1, den: 1 }
    } else {
        Fraction { num: (m - d) as u64, den: m as u64 }
    }
}

} // verus!
