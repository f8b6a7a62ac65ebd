use vstd::prelude::*;

verus! {

/// Exponents of the Burau parameter are kept inside `(-EXP_BOUND, EXP_BOUND)`
/// so that all exponent arithmetic stays far away from the `i64` limits.
pub const EXP_BOUND: i64 = 0x2000_0000_0000_0000;

/// A Laurent polynomial in the Burau parameter `t`, with integer
/// coefficients: `coeffs[i]` is the coefficient of `t^(lo + i)`.
///
/// The representation is canonical: the coefficient vector is empty exactly
/// for the zero polynomial (with `lo == 0`), and otherwise starts and ends
/// with a non-zero coefficient. Matrix entries of the Burau representation
/// are such polynomials, so the whole representation is exact; no rounding
/// ever occurs.
#[derive(Debug, Clone)]
pub struct LaurentPoly {
    pub lo: i64,
    pub coeffs: Vec<i64>,
}

impl LaurentPoly {
    /// The coefficient of `t^e`, zero outside the stored range.
    pub open spec fn coeff(&self, e: int) -> int {
        if self.lo <= e && e < self.lo + self.coeffs@.len() {
            self.coeffs@[e - self.lo] as int
        } else {
            0
        }
    }

    /// Well-formed: canonical and with its support inside the exponent range.
    pub open spec fn wf(&self) -> bool {
        &&& -EXP_BOUND <= self.lo
        &&& self.lo + self.coeffs@.len() <= EXP_BOUND
        &&& (self.coeffs@.len() == 0 ==> self.lo == 0)
        &&& (self.coeffs@.len() > 0 ==> self.coeffs@[0] != 0 && self.coeffs@[self.coeffs@.len()
            - 1] != 0)
    }

    /// The polynomial is the constant `c`.
    pub open spec fn is_const(&self, c: int) -> bool {
        forall|e: int| #[trigger] self.coeff(e) == if e == 0 { c } else { 0 }
    }

    /// The zero polynomial.
    pub fn zero() -> (r: LaurentPoly)
        ensures
            r.wf(),
            r.is_const(0),
    {
        LaurentPoly { lo: 0, coeffs: Vec::new() }
    }

    /// The constant polynomial `c`.
    pub fn constant(c: i64) -> (r: LaurentPoly)
        ensures
            r.wf(),
            r.is_const(c as int),
    {
        if c == 0 {
            LaurentPoly::zero()
        } else {
            let mut coeffs: Vec<i64> = Vec::new();
            coeffs.push(c);
            LaurentPoly { lo: 0, coeffs }
        }
    }

    /// Returns true exactly when the polynomial is the constant `c`.
    pub fn equals_const(&self, c: i64) -> (r: bool)
        requires
            self.wf(),
        ensures
            r == self.is_const(c as int),
    {
        if self.coeffs.len() == 0 {
            proof {
                if c != 0 {
                    assert(self.coeff(0) == 0);
                }
            }
            c == 0
        } else if self.coeffs.len() == 1 {
            let r = self.lo == 0 && self.coeffs[0] == c;
            proof {
                if self.lo == 0 && self.coeffs@[0] == c {
                    assert forall|e: int| #[trigger] self.coeff(e) == if e == 0 {
                        c as int
                    } else {
                        0
                    } by {}
                } else {
                    if self.lo != 0 {
                        assert(self.coeff(self.lo as int) != 0);
                        assert(self.coeff(self.lo as int) != if self.lo as int == 0 {
                            c as int
                        } else {
                            0
                        });
                    } else {
                        assert(self.coeff(0) == self.coeffs@[0]);
                    }
                }
            }
            r
        } else {
            proof {
                let last = self.lo + self.coeffs@.len() - 1;
                assert(self.coeff(self.lo as int) == self.coeffs@[0]);
                assert(self.coeff(last) == self.coeffs@[self.coeffs@.len() - 1]);
                assert(self.lo != 0 || last != 0);
                if self.is_const(c as int) {
                    if self.lo != 0 {
                        assert(self.coeff(self.lo as int) == 0);
                    } else {
                        assert(self.coeff(last) == 0);
                    }
                }
            }
            false
        }
    }
}

/// Copies a coefficient vector.
fn copy_coeffs(v: &Vec<i64>) -> (r: Vec<i64>)
    ensures
        r@ == v@,
{
    let mut r: Vec<i64> = Vec::new();
    let mut i: usize = 0;
    while i < v.len()
        invariant
            i <= v@.len(),
            r@ == v@.subrange(0, i as int),
        decreases v@.len() - i,
    {
        let ghost r0 = r@;
        r.push(v[i]);
        proof {
            assert(r0.push(v@[i as int]) =~= v@.subrange(0, i + 1));
        }
        i = i + 1;
    }
    proof {
        assert(v@.subrange(0, v@.len() as int) =~= v@);
    }
    r
}

impl LaurentPoly {
    /// An exact copy of this polynomial.
    pub fn duplicate(&self) -> (r: LaurentPoly)
        ensures
            r.lo == self.lo,
            r.coeffs@ == self.coeffs@,
            r.wf() == self.wf(),
            forall|e: int| #[trigger] r.coeff(e) == self.coeff(e),
    {
        LaurentPoly { lo: self.lo, coeffs: copy_coeffs(&self.coeffs) }
    }
}

/// The coefficient of `t^e` of the raw (untrimmed) accumulator vector whose
/// first slot holds the coefficient of `t^lo0`.
pub open spec fn raw_val(lo0: int, raw: Seq<i128>, e: int) -> int {
    if lo0 <= e && e < lo0 + raw.len() {
        raw[e - lo0] as int
    } else {
        0
    }
}

/// The raw accumulator denotes a representable polynomial: every coefficient
/// fits in `i64` and the support lies inside the exponent range.
pub open spec fn fits_raw(lo0: int, raw: Seq<i128>) -> bool {
    &&& forall|e: int|
        i64::MIN <= #[trigger] raw_val(lo0, raw, e) && raw_val(lo0, raw, e) <= i64::MAX
    &&& forall|e: int| #[trigger] raw_val(lo0, raw, e) != 0 ==> -EXP_BOUND <= e && e < EXP_BOUND
}

/// Reads the coefficient of `t^e`.
pub fn coeff_at(p: &LaurentPoly, e: i64) -> (c: i64)
    requires
        p.wf(),
        -EXP_BOUND - 2 <= e,
        e <= EXP_BOUND + 2,
    ensures
        c as int == p.coeff(e as int),
{
    if e >= p.lo {
        let off = e - p.lo;
        if off < p.coeffs.len() as i64 {
            return p.coeffs[off as usize];
        }
    }
    0
}

/// Trims a raw accumulator into a canonical polynomial; `None` exactly when
/// some coefficient overflows `i64` or the support leaves the exponent range.
pub(crate) fn build_canonical(lo0: i64, raw: &Vec<i128>) -> (r: Option<LaurentPoly>)
    requires
        -EXP_BOUND - 2 <= lo0,
        lo0 + raw@.len() <= EXP_BOUND + 2,
    ensures
        match r {
            Some(p) => {
                &&& p.wf()
                &&& fits_raw(lo0 as int, raw@)
                &&& forall|e: int| #[trigger] p.coeff(e) == raw_val(lo0 as int, raw@, e)
            },
            None => !fits_raw(lo0 as int, raw@),
        },
{
    let n = raw.len();
    let mut a: usize = 0;
    while a < n && raw[a as usize] == 0
        invariant
            a <= n,
            n == raw@.len(),
            forall|k: int| 0 <= k < a ==> raw@[k] == 0,
        decreases n - a,
    {
        a = a + 1;
    }
    if a == n {
        proof {
            assert forall|e: int| #[trigger] raw_val(lo0 as int, raw@, e) == 0 by {}
        }
        return Some(LaurentPoly::zero());
    }
    let mut b: usize = n;
    while raw[b - 1] == 0
        invariant
            a < b,
            b <= n,
            n == raw@.len(),
            raw@[a as int] != 0,
            forall|k: int| b <= k < n ==> raw@[k] == 0,
        decreases b,
    {
        b = b - 1;
    }
    // support is contained in [lo0 + a, lo0 + b), with non-zero endpoints
    if lo0 + (a as i64) < -EXP_BOUND {
        proof {
            assert(raw_val(lo0 as int, raw@, lo0 + a) != 0);
        }
        return None;
    }
    if lo0 + (b as i64) > EXP_BOUND {
        proof {
            assert(raw_val(lo0 as int, raw@, lo0 + b - 1) != 0);
        }
        return None;
    }
    let mut coeffs: Vec<i64> = Vec::new();
    let mut k = a;
    while k < b
        invariant
            a <= k <= b <= n,
            n == raw@.len(),
            coeffs@.len() == k - a,
            forall|j: int| a <= j < k ==> i64::MIN <= #[trigger] raw@[j] <= i64::MAX,
            forall|j: int| a <= j < k ==> coeffs@[j - a] == raw@[j] as i64,
        decreases b - k,
    {
        let v = raw[k];
        if v > (i64::MAX as i128) || v < (i64::MIN as i128) {
            proof {
                assert(raw_val(lo0 as int, raw@, lo0 + k) == raw@[k as int]);
            }
            return None;
        }
        coeffs.push(v as i64);
        k = k + 1;
    }
    let p = LaurentPoly { lo: lo0 + (a as i64), coeffs };
    proof {
        assert(p.coeffs@[0] == raw@[a as int] as i64);
        assert(p.coeffs@[p.coeffs@.len() - 1] == raw@[b - 1] as i64);
        assert(p.wf());
        assert forall|e: int| #[trigger] p.coeff(e) == raw_val(lo0 as int, raw@, e) by {
            if lo0 + a <= e && e < lo0 + b {
                assert(p.coeff(e) == p.coeffs@[e - lo0 - a]);
                assert(raw_val(lo0 as int, raw@, e) == raw@[e - lo0] as int);
            } else if lo0 <= e && e < lo0 + raw@.len() {
                assert(raw@[e - lo0] == 0);
            }
        }
        assert forall|e: int|
            i64::MIN <= #[trigger] raw_val(lo0 as int, raw@, e) && raw_val(lo0 as int, raw@, e)
                <= i64::MAX by {
            assert(raw_val(lo0 as int, raw@, e) == p.coeff(e));
        }
        assert forall|e: int| #[trigger] raw_val(lo0 as int, raw@, e) != 0 implies -EXP_BOUND <= e
            && e < EXP_BOUND by {
            assert(raw_val(lo0 as int, raw@, e) == p.coeff(e));
        }
    }
    Some(p)
}

/// The first replacement column of a right-multiplication by the elementary
/// generator matrix `U_k`: coefficient-wise `p - t*p + q`.
pub open spec fn sigma_p_val(p: LaurentPoly, q: LaurentPoly, e: int) -> int {
    p.coeff(e) - p.coeff(e - 1) + q.coeff(e)
}

/// The second replacement column of `U_k`: coefficient-wise `t*p`.
pub open spec fn sigma_q_val(p: LaurentPoly, e: int) -> int {
    p.coeff(e - 1)
}

/// Both replacement columns of `U_k` are representable.
pub open spec fn sigma_cols_fits(p: LaurentPoly, q: LaurentPoly) -> bool {
    &&& forall|e: int|
        i64::MIN <= #[trigger] sigma_p_val(p, q, e) && sigma_p_val(p, q, e) <= i64::MAX
    &&& forall|e: int| #[trigger] sigma_p_val(p, q, e) != 0 ==> -EXP_BOUND <= e && e < EXP_BOUND
    &&& forall|e: int| #[trigger] sigma_q_val(p, e) != 0 ==> -EXP_BOUND <= e && e < EXP_BOUND
}

/// The first replacement column of a right-multiplication by the inverse
/// elementary matrix `U_k^{-1}`: coefficient-wise `q / t`.
pub open spec fn inv_p_val(q: LaurentPoly, e: int) -> int {
    q.coeff(e + 1)
}

/// The second replacement column of `U_k^{-1}`: coefficient-wise
/// `p + q - q / t`.
pub open spec fn inv_q_val(p: LaurentPoly, q: LaurentPoly, e: int) -> int {
    p.coeff(e) + q.coeff(e) - q.coeff(e + 1)
}

/// Both replacement columns of `U_k^{-1}` are representable.
pub open spec fn inv_cols_fits(p: LaurentPoly, q: LaurentPoly) -> bool {
    &&& forall|e: int| i64::MIN <= #[trigger] inv_q_val(p, q, e) && inv_q_val(p, q, e) <= i64::MAX
    &&& forall|e: int| #[trigger] inv_q_val(p, q, e) != 0 ==> -EXP_BOUND <= e && e < EXP_BOUND
    &&& forall|e: int| #[trigger] inv_p_val(q, e) != 0 ==> -EXP_BOUND <= e && e < EXP_BOUND
}

/// Multiplies by `t`: the polynomial whose coefficients are shifted one
/// exponent up; `None` exactly when the shifted support leaves the range.
fn shift_up(p: &LaurentPoly) -> (r: Option<LaurentPoly>)
    requires
        p.wf(),
    ensures
        match r {
            Some(s) => {
                &&& s.wf()
                &&& forall|e: int| #[trigger] s.coeff(e) == sigma_q_val(*p, e)
            },
            None => !(forall|e: int|
                #[trigger] sigma_q_val(*p, e) != 0 ==> -EXP_BOUND <= e && e < EXP_BOUND),
        },
{
    if p.coeffs.len() == 0 {
        let z = LaurentPoly::zero();
        proof {
            assert forall|e: int| #[trigger] z.coeff(e) == sigma_q_val(*p, e) by {}
        }
        return Some(z);
    }
    if p.lo + (p.coeffs.len() as i64) == EXP_BOUND {
        proof {
            let bad = p.lo + p.coeffs@.len() as int;
            assert(sigma_q_val(*p, bad) == p.coeff(bad - 1));
            assert(p.coeff(bad - 1) == p.coeffs@[p.coeffs@.len() - 1]);
            assert(sigma_q_val(*p, bad) != 0 && !(bad < EXP_BOUND));
        }
        return None;
    }
    let shifted = LaurentPoly { lo: p.lo + 1, coeffs: copy_coeffs(&p.coeffs) };
    proof {
        assert forall|e: int| #[trigger] shifted.coeff(e) == sigma_q_val(*p, e) by {}
    }
    Some(shifted)
}

/// Divides by `t`: the polynomial whose coefficients are shifted one
/// exponent down; `None` exactly when the shifted support leaves the range.
fn shift_down(q: &LaurentPoly) -> (r: Option<LaurentPoly>)
    requires
        q.wf(),
    ensures
        match r {
            Some(s) => {
                &&& s.wf()
                &&& forall|e: int| #[trigger] s.coeff(e) == inv_p_val(*q, e)
            },
            None => !(forall|e: int|
                #[trigger] inv_p_val(*q, e) != 0 ==> -EXP_BOUND <= e && e < EXP_BOUND),
        },
{
    if q.coeffs.len() == 0 {
        let z = LaurentPoly::zero();
        proof {
            assert forall|e: int| #[trigger] z.coeff(e) == inv_p_val(*q, e) by {}
        }
        return Some(z);
    }
    if q.lo == -EXP_BOUND {
        proof {
            let bad = q.lo - 1;
            assert(inv_p_val(*q, bad) == q.coeff(bad + 1));
            assert(q.coeff(bad + 1) == q.coeffs@[0]);
            assert(inv_p_val(*q, bad) != 0 && !(-EXP_BOUND <= bad));
        }
        return None;
    }
    let shifted = LaurentPoly { lo: q.lo - 1, coeffs: copy_coeffs(&q.coeffs) };
    proof {
        assert forall|e: int| #[trigger] shifted.coeff(e) == inv_p_val(*q, e) by {}
    }
    Some(shifted)
}

/// Computes the two replacement columns for one row under `U_k`, exactly;
/// `None` exactly when a coefficient or exponent leaves the representable
/// range, in which case nothing is changed by the caller.
pub fn sigma_cols(p: &LaurentPoly, q: &LaurentPoly) -> (r: Option<(LaurentPoly, LaurentPoly)>)
    requires
        p.wf(),
        q.wf(),
    ensures
        match r {
            Some(pair) => {
                &&& pair.0.wf()
                &&& pair.1.wf()
                &&& sigma_cols_fits(*p, *q)
                &&& forall|e: int| #[trigger] pair.0.coeff(e) == sigma_p_val(*p, *q, e)
                &&& forall|e: int| #[trigger] pair.1.coeff(e) == sigma_q_val(*p, e)
            },
            None => !sigma_cols_fits(*p, *q),
        },
{
    // the shifted copy of p that becomes the second column
    let new_q: LaurentPoly = match shift_up(p) {
        Some(s) => s,
        None => {
            return None;
        },
    };
    // the combined first column, accumulated exactly in i128
    let p_empty = p.coeffs.len() == 0;
    let q_empty = q.coeffs.len() == 0;
    if p_empty && q_empty {
        let z = LaurentPoly::zero();
        proof {
            assert forall|e: int| #[trigger] z.coeff(e) == sigma_p_val(*p, *q, e) by {}
            assert forall|e: int| #[trigger] sigma_q_val(*p, e) != 0 implies -EXP_BOUND <= e && e
                < EXP_BOUND by {
                assert(new_q.coeff(e) == sigma_q_val(*p, e));
            }
        }
        return Some((z, new_q));
    }
    let p_lo = p.lo;
    let p_hi = p.lo + (p.coeffs.len() as i64);
    let q_lo = q.lo;
    let q_hi = q.lo + (q.coeffs.len() as i64);
    let lo_h: i64 = if p_empty {
        q_lo
    } else if q_empty {
        p_lo
    } else if p_lo < q_lo {
        p_lo
    } else {
        q_lo
    };
    let hi_h: i64 = if p_empty {
        q_hi
    } else if q_empty {
        p_hi + 1
    } else if p_hi + 1 > q_hi {
        p_hi + 1
    } else {
        q_hi
    };
    let mut raw: Vec<i128> = Vec::new();
    let mut e: i64 = lo_h;
    while e < hi_h
        invariant
            p.wf(),
            q.wf(),
            lo_h <= e <= hi_h,
            -EXP_BOUND <= lo_h,
            hi_h <= EXP_BOUND + 1,
            raw@.len() == e - lo_h,
            forall|j: int|
                lo_h <= j < e ==> #[trigger] raw@[j - lo_h] as int == sigma_p_val(*p, *q, j),
        decreases hi_h - e,
    {
        let pv = coeff_at(p, e) as i128;
        let pv1 = coeff_at(p, e - 1) as i128;
        let qv = coeff_at(q, e) as i128;
        raw.push(pv - pv1 + qv);
        e = e + 1;
    }
    proof {
        assert forall|j: int| (j < lo_h || j >= hi_h) implies #[trigger] sigma_p_val(*p, *q, j)
            == 0 by {
            assert(p.coeff(j) == 0);
            assert(p.coeff(j - 1) == 0);
            assert(q.coeff(j) == 0);
        }
        assert forall|j: int| #[trigger] raw_val(lo_h as int, raw@, j) == sigma_p_val(*p, *q, j) by {
            if lo_h <= j < hi_h {
                assert(raw_val(lo_h as int, raw@, j) == raw@[j - lo_h] as int);
            }
        }
    }
    match build_canonical(lo_h, &raw) {
        Some(new_p) => {
            proof {
                assert forall|e: int|
                    i64::MIN <= #[trigger] sigma_p_val(*p, *q, e) && sigma_p_val(*p, *q, e)
                        <= i64::MAX by {
                    assert(raw_val(lo_h as int, raw@, e) == sigma_p_val(*p, *q, e));
                }
                assert forall|e: int| #[trigger] sigma_p_val(*p, *q, e) != 0 implies -EXP_BOUND <= e
                    && e < EXP_BOUND by {
                    assert(raw_val(lo_h as int, raw@, e) == sigma_p_val(*p, *q, e));
                }
                assert forall|e: int| #[trigger] sigma_q_val(*p, e) != 0 implies -EXP_BOUND <= e
                    && e < EXP_BOUND by {
                    assert(new_q.coeff(e) == sigma_q_val(*p, e));
                }
                assert forall|e: int| #[trigger] new_p.coeff(e) == sigma_p_val(*p, *q, e) by {
                    assert(new_p.coeff(e) == raw_val(lo_h as int, raw@, e));
                }
            }
            Some((new_p, new_q))
        },
        None => {
            proof {
                if sigma_cols_fits(*p, *q) {
                    assert forall|e: int|
                        i64::MIN <= #[trigger] raw_val(lo_h as int, raw@, e) && raw_val(
                            lo_h as int,
                            raw@,
                            e,
                        ) <= i64::MAX by {
                        assert(raw_val(lo_h as int, raw@, e) == sigma_p_val(*p, *q, e));
                    }
                    assert forall|e: int| #[trigger] raw_val(lo_h as int, raw@, e)
                        != 0 implies -EXP_BOUND <= e && e < EXP_BOUND by {
                        assert(raw_val(lo_h as int, raw@, e) == sigma_p_val(*p, *q, e));
                    }
                }
            }
            None
        },
    }
}

/// Computes the two replacement columns for one row under `U_k^{-1}`,
/// exactly; `None` exactly when a coefficient or exponent leaves the
/// representable range.
pub fn inv_cols(p: &LaurentPoly, q: &LaurentPoly) -> (r: Option<(LaurentPoly, LaurentPoly)>)
    requires
        p.wf(),
        q.wf(),
    ensures
        match r {
            Some(pair) => {
                &&& pair.0.wf()
                &&& pair.1.wf()
                &&& inv_cols_fits(*p, *q)
                &&& forall|e: int| #[trigger] pair.0.coeff(e) == inv_p_val(*q, e)
                &&& forall|e: int| #[trigger] pair.1.coeff(e) == inv_q_val(*p, *q, e)
            },
            None => !inv_cols_fits(*p, *q),
        },
{
    // the shifted copy of q that becomes the first column
    let new_p: LaurentPoly = match shift_down(q) {
        Some(s) => s,
        None => {
            return None;
        },
    };
    // the combined second column, accumulated exactly in i128
    let p_empty = p.coeffs.len() == 0;
    let q_empty = q.coeffs.len() == 0;
    if p_empty && q_empty {
        let z = LaurentPoly::zero();
        proof {
            assert forall|e: int| #[trigger] z.coeff(e) == inv_q_val(*p, *q, e) by {}
            assert forall|e: int| #[trigger] inv_p_val(*q, e) != 0 implies -EXP_BOUND <= e && e
                < EXP_BOUND by {
                assert(new_p.coeff(e) == inv_p_val(*q, e));
            }
        }
        return Some((new_p, z));
    }
    let p_lo = p.lo;
    let p_hi = p.lo + (p.coeffs.len() as i64);
    let q_lo = q.lo;
    let q_hi = q.lo + (q.coeffs.len() as i64);
    let lo_h: i64 = if p_empty {
        q_lo - 1
    } else if q_empty {
        p_lo
    } else if p_lo < q_lo - 1 {
        p_lo
    } else {
        q_lo - 1
    };
    let hi_h: i64 = if p_empty {
        q_hi
    } else if q_empty {
        p_hi
    } else if p_hi > q_hi {
        p_hi
    } else {
        q_hi
    };
    let mut raw: Vec<i128> = Vec::new();
    let mut e: i64 = lo_h;
    while e < hi_h
        invariant
            p.wf(),
            q.wf(),
            lo_h <= e <= hi_h,
            -EXP_BOUND - 1 <= lo_h,
            hi_h <= EXP_BOUND,
            raw@.len() == e - lo_h,
            forall|j: int|
                lo_h <= j < e ==> #[trigger] raw@[j - lo_h] as int == inv_q_val(*p, *q, j),
        decreases hi_h - e,
    {
        let pv = coeff_at(p, e) as i128;
        let qv = coeff_at(q, e) as i128;
        let qv1 = coeff_at(q, e + 1) as i128;
        raw.push(pv + qv - qv1);
        e = e + 1;
    }
    proof {
        assert forall|j: int| (j < lo_h || j >= hi_h) implies #[trigger] inv_q_val(*p, *q, j)
            == 0 by {
            assert(p.coeff(j) == 0);
            assert(q.coeff(j) == 0);
            assert(q.coeff(j + 1) == 0);
        }
        assert forall|j: int| #[trigger] raw_val(lo_h as int, raw@, j) == inv_q_val(*p, *q, j) by {
            if lo_h <= j < hi_h {
                assert(raw_val(lo_h as int, raw@, j) == raw@[j - lo_h] as int);
            }
        }
    }
    match build_canonical(lo_h, &raw) {
        Some(new_q) => {
            proof {
                assert forall|e: int|
                    i64::MIN <= #[trigger] inv_q_val(*p, *q, e) && inv_q_val(*p, *q, e)
                        <= i64::MAX by {
                    assert(raw_val(lo_h as int, raw@, e) == inv_q_val(*p, *q, e));
                }
                assert forall|e: int| #[trigger] inv_q_val(*p, *q, e) != 0 implies -EXP_BOUND <= e
                    && e < EXP_BOUND by {
                    assert(raw_val(lo_h as int, raw@, e) == inv_q_val(*p, *q, e));
                }
                assert forall|e: int| #[trigger] inv_p_val(*q, e) != 0 implies -EXP_BOUND <= e && e
                    < EXP_BOUND by {
                    assert(new_p.coeff(e) == inv_p_val(*q, e));
                }
                assert forall|e: int| #[trigger] new_q.coeff(e) == inv_q_val(*p, *q, e) by {
                    assert(new_q.coeff(e) == raw_val(lo_h as int, raw@, e));
                }
            }
            Some((new_p, new_q))
        },
        None => {
            proof {
                if inv_cols_fits(*p, *q) {
                    assert forall|e: int|
                        i64::MIN <= #[trigger] raw_val(lo_h as int, raw@, e) && raw_val(
                            lo_h as int,
                            raw@,
                            e,
                        ) <= i64::MAX by {
                        assert(raw_val(lo_h as int, raw@, e) == inv_q_val(*p, *q, e));
                    }
                    assert forall|e: int| #[trigger] raw_val(lo_h as int, raw@, e)
                        != 0 implies -EXP_BOUND <= e && e < EXP_BOUND by {
                        assert(raw_val(lo_h as int, raw@, e) == inv_q_val(*p, *q, e));
                    }
                }
            }
            None
        },
    }
}

} // verus!
