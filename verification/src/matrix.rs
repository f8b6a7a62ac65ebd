use vstd::prelude::*;
use crate::poly::{
    inv_cols, inv_cols_fits, inv_p_val, inv_q_val, sigma_cols, sigma_cols_fits, sigma_p_val,
    sigma_q_val, LaurentPoly, EXP_BOUND,
};

verus! {

/// The coefficient of `t^e` in entry `(i, j)` of the identity matrix.
pub open spec fn id_coeff(i: int, j: int, e: int) -> int {
    if i == j && e == 0 {
        1
    } else {
        0
    }
}

/// A square matrix of Laurent polynomials in the Burau parameter `t`,
/// evolved by right-multiplication with elementary generator matrices.
///
/// The complex Burau matrix of a session is this matrix with `t` set to the
/// session's unit-circle parameter; keeping the polynomials themselves makes
/// every update exact.
#[derive(Debug, Clone)]
pub struct BurauMatrix {
    pub dim: usize,
    pub rows: Vec<Vec<LaurentPoly>>,
}

impl BurauMatrix {
    /// Well-formed: square of size `dim`, all entries well-formed, and the
    /// dimension small enough that exact trace accumulation cannot overflow.
    pub open spec fn wf(&self) -> bool {
        &&& self.dim <= 0xFFFF_FFFF
        &&& self.rows@.len() == self.dim
        &&& forall|i: int| 0 <= i < self.dim ==> (#[trigger] self.rows@[i])@.len() == self.dim
        &&& forall|i: int, j: int|
            0 <= i < self.dim && 0 <= j < self.dim ==> (#[trigger] self.rows@[i]@[j]).wf()
    }

    /// The entry at row `i`, column `j`.
    pub open spec fn ent(&self, i: int, j: int) -> LaurentPoly {
        self.rows@[i]@[j]
    }

    /// The coefficient of `t^e` in the entry at `(i, j)`.
    pub open spec fn at(&self, i: int, j: int, e: int) -> int {
        self.ent(i, j).coeff(e)
    }

    /// The matrix is the identity.
    pub open spec fn is_identity_spec(&self) -> bool {
        forall|i: int, j: int, e: int|
            0 <= i < self.dim && 0 <= j < self.dim ==> #[trigger] self.at(i, j, e) == id_coeff(
                i,
                j,
                e,
            )
    }

    /// The identity matrix of the given dimension.
    pub fn identity(dim: usize) -> (m: BurauMatrix)
        requires
            dim <= 0xFFFF_FFFF,
        ensures
            m.wf(),
            m.dim == dim,
            m.is_identity_spec(),
    {
        let mut rows: Vec<Vec<LaurentPoly>> = Vec::new();
        let mut i: usize = 0;
        while i < dim
            invariant
                i <= dim,
                rows@.len() == i,
                forall|r: int| 0 <= r < i ==> (#[trigger] rows@[r])@.len() == dim,
                forall|r: int, c: int|
                    0 <= r < i && 0 <= c < dim ==> (#[trigger] rows@[r]@[c]).wf(),
                forall|r: int, c: int|
                    0 <= r < i && 0 <= c < dim ==> (#[trigger] rows@[r]@[c]).is_const(
                        if r == c {
                            1
                        } else {
                            0
                        },
                    ),
            decreases dim - i,
        {
            let mut row: Vec<LaurentPoly> = Vec::new();
            let mut j: usize = 0;
            while j < dim
                invariant
                    j <= dim,
                    row@.len() == j,
                    forall|c: int| 0 <= c < j ==> (#[trigger] row@[c]).wf(),
                    forall|c: int|
                        0 <= c < j ==> (#[trigger] row@[c]).is_const(
                            if i == c {
                                1
                            } else {
                                0
                            },
                        ),
                decreases dim - j,
            {
                if i == j {
                    row.push(LaurentPoly::constant(1));
                } else {
                    row.push(LaurentPoly::zero());
                }
                j = j + 1;
            }
            rows.push(row);
            i = i + 1;
        }
        let m = BurauMatrix { dim, rows };
        proof {
            assert forall|i2: int, j2: int, e: int|
                0 <= i2 < m.dim && 0 <= j2 < m.dim implies #[trigger] m.at(i2, j2, e) == id_coeff(
                i2,
                j2,
                e,
            ) by {
                assert(m.ent(i2, j2).is_const(
                    if i2 == j2 {
                        1
                    } else {
                        0
                    },
                ));
                assert(m.ent(i2, j2).coeff(e) == if e == 0 {
                    (if i2 == j2 {
                        1int
                    } else {
                        0int
                    })
                } else {
                    0int
                });
            }
        }
        m
    }

    /// Reads the entry at `(i, j)`.
    pub fn entry(&self, i: usize, j: usize) -> (p: &LaurentPoly)
        requires
            self.wf(),
            i < self.dim,
            j < self.dim,
        ensures
            *p == self.ent(i as int, j as int),
    {
        &self.rows[i][j]
    }

    /// Returns true exactly when the matrix is the identity.
    pub fn is_identity(&self) -> (r: bool)
        requires
            self.wf(),
        ensures
            r == self.is_identity_spec(),
    {
        let mut i: usize = 0;
        while i < self.dim
            invariant
                self.wf(),
                i <= self.dim,
                forall|i2: int, j2: int, e: int|
                    0 <= i2 < i && 0 <= j2 < self.dim ==> #[trigger] self.at(i2, j2, e)
                        == id_coeff(i2, j2, e),
            decreases self.dim - i,
        {
            let mut j: usize = 0;
            while j < self.dim
                invariant
                    self.wf(),
                    i < self.dim,
                    j <= self.dim,
                    forall|i2: int, j2: int, e: int|
                        0 <= i2 < i && 0 <= j2 < self.dim ==> #[trigger] self.at(i2, j2, e)
                            == id_coeff(i2, j2, e),
                    forall|j2: int, e: int|
                        0 <= j2 < j ==> #[trigger] self.at(i as int, j2, e) == id_coeff(
                            i as int,
                            j2,
                            e,
                        ),
                decreases self.dim - j,
            {
                let want: i64 = if i == j {
                    1
                } else {
                    0
                };
                if !self.rows[i][j].equals_const(want) {
                    proof {
                        let p = self.ent(i as int, j as int);
                        assert(!p.is_const(want as int));
                        let e = choose|e: int|
                            !(#[trigger] p.coeff(e) == if e == 0 {
                                want as int
                            } else {
                                0
                            });
                        assert(self.at(i as int, j as int, e) != id_coeff(i as int, j as int, e));
                    }
                    return false;
                }
                j = j + 1;
            }
            i = i + 1;
        }
        true
    }
}

/// Every row's replacement columns under `U_k` are representable.
pub open spec fn sigma_fits(m: BurauMatrix, k: int) -> bool {
    forall|i: int|
        0 <= i < m.dim ==> sigma_cols_fits(#[trigger] m.ent(i, k - 1), m.ent(i, k))
}

/// `post` is `pre` right-multiplied by the elementary matrix `U_k`: only
/// columns `k-1` and `k` change, as the exact coefficient formulas say.
pub open spec fn sigma_applied(post: BurauMatrix, pre: BurauMatrix, k: int) -> bool {
    &&& post.dim == pre.dim
    &&& forall|i: int, j: int|
        0 <= i < pre.dim && 0 <= j < pre.dim && j != k - 1 && j != k ==> #[trigger] post.ent(i, j)
            == pre.ent(i, j)
    &&& forall|i: int, e: int|
        0 <= i < pre.dim ==> #[trigger] post.at(i, k - 1, e) == sigma_p_val(
            pre.ent(i, k - 1),
            pre.ent(i, k),
            e,
        )
    &&& forall|i: int, e: int|
        0 <= i < pre.dim ==> #[trigger] post.at(i, k, e) == sigma_q_val(pre.ent(i, k - 1), e)
}

/// Every row's replacement columns under `U_k^{-1}` are representable.
pub open spec fn inv_fits(m: BurauMatrix, k: int) -> bool {
    forall|i: int| 0 <= i < m.dim ==> inv_cols_fits(#[trigger] m.ent(i, k - 1), m.ent(i, k))
}

/// `post` is `pre` right-multiplied by the inverse elementary matrix
/// `U_k^{-1}`.
pub open spec fn inv_applied(post: BurauMatrix, pre: BurauMatrix, k: int) -> bool {
    &&& post.dim == pre.dim
    &&& forall|i: int, j: int|
        0 <= i < pre.dim && 0 <= j < pre.dim && j != k - 1 && j != k ==> #[trigger] post.ent(i, j)
            == pre.ent(i, j)
    &&& forall|i: int, e: int|
        0 <= i < pre.dim ==> #[trigger] post.at(i, k - 1, e) == inv_p_val(pre.ent(i, k), e)
    &&& forall|i: int, e: int|
        0 <= i < pre.dim ==> #[trigger] post.at(i, k, e) == inv_q_val(
            pre.ent(i, k - 1),
            pre.ent(i, k),
            e,
        )
}

impl BurauMatrix {
    /// Right-multiplies the matrix by the elementary generator matrix `U_k`.
    ///
    /// An index outside `[1, dim-1]` leaves the matrix unchanged, as does a
    /// result that would leave the representable coefficient range.
    pub fn apply_sigma(&mut self, k: usize)
        requires
            old(self).wf(),
        ensures
            final(self).wf(),
            final(self).dim == old(self).dim,
            (k < 1 || k >= old(self).dim) ==> *final(self) == *old(self),
            (1 <= k && k < old(self).dim && sigma_fits(*old(self), k as int)) ==> sigma_applied(
                *final(self),
                *old(self),
                k as int,
            ),
            (1 <= k && k < old(self).dim && !sigma_fits(*old(self), k as int)) ==> *final(self)
                == *old(self),
    {
        if k == 0 || k >= self.dim {
            return ;
        }
        let c0 = k - 1;
        let c1 = k;
        let mut pairs: Vec<(LaurentPoly, LaurentPoly)> = Vec::new();
        let mut i: usize = 0;
        while i < self.dim
            invariant
                *self == *old(self),
                self.wf(),
                1 <= k < self.dim,
                c0 == k - 1,
                c1 == k,
                i <= self.dim,
                pairs@.len() == i,
                forall|r: int|
                    0 <= r < i ==> (#[trigger] pairs@[r].0).wf() && pairs@[r].1.wf(),
                forall|r: int|
                    0 <= r < i ==> sigma_cols_fits(#[trigger] self.ent(r, c0 as int), self.ent(r, c1 as int)),
                forall|r: int, e: int|
                    0 <= r < i ==> (#[trigger] pairs@[r].0.coeff(e)) == sigma_p_val(
                        self.ent(r, c0 as int),
                        self.ent(r, c1 as int),
                        e,
                    ),
                forall|r: int, e: int|
                    0 <= r < i ==> (#[trigger] pairs@[r].1.coeff(e)) == sigma_q_val(
                        self.ent(r, c0 as int),
                        e,
                    ),
            decreases self.dim - i,
        {
            let row = &self.rows[i];
            match sigma_cols(&row[c0], &row[c1]) {
                None => {
                    proof {
                        assert(!sigma_cols_fits(
                            old(self).ent(i as int, k - 1),
                            old(self).ent(i as int, k as int),
                        ));
                    }
                    return ;
                },
                Some(pair) => {
                    pairs.push(pair);
                },
            }
            i = i + 1;
        }
        let ghost pre = *self;
        let ghost allpairs = pairs@;
        let mut i: usize = self.dim;
        while i > 0
            invariant
                0 <= i <= self.dim,
                self.dim == pre.dim,
                1 <= k < pre.dim,
                c0 == k - 1,
                c1 == k,
                pre.wf(),
                pairs@ == allpairs.take(i as int),
                allpairs.len() == pre.dim,
                forall|r: int|
                    0 <= r < pre.dim ==> (#[trigger] allpairs[r].0).wf() && allpairs[r].1.wf(),
                forall|r: int, e: int|
                    0 <= r < pre.dim ==> (#[trigger] allpairs[r].0.coeff(e)) == sigma_p_val(
                        pre.ent(r, c0 as int),
                        pre.ent(r, c1 as int),
                        e,
                    ),
                forall|r: int, e: int|
                    0 <= r < pre.dim ==> (#[trigger] allpairs[r].1.coeff(e)) == sigma_q_val(
                        pre.ent(r, c0 as int),
                        e,
                    ),
                self.rows@.len() == pre.dim,
                forall|r: int| 0 <= r < i ==> #[trigger] self.rows@[r] == pre.rows@[r],
                forall|r: int|
                    i <= r < pre.dim ==> (#[trigger] self.rows@[r])@.len() == pre.dim,
                forall|r: int, c: int|
                    i <= r < pre.dim && 0 <= c < pre.dim && c != c0 && c != c1
                        ==> #[trigger] self.rows@[r]@[c] == pre.rows@[r]@[c],
                forall|r: int|
                    i <= r < pre.dim ==> #[trigger] self.rows@[r]@[c0 as int] == allpairs[r].0
                        && self.rows@[r]@[c1 as int] == allpairs[r].1,
            decreases i,
        {
            let ghost rows_entry = self.rows@;
            i = i - 1;
            let pair = pairs.pop().unwrap();
            proof {
                assert(allpairs.take(i as int + 1).last() == allpairs[i as int]);
                assert(allpairs.take(i as int + 1).drop_last() =~= allpairs.take(i as int));
            }
            self.rows[i][c0] = pair.0;
            self.rows[i][c1] = pair.1;
            proof {
                assert(self.rows@[i as int]@[c0 as int] == allpairs[i as int].0);
                assert(self.rows@[i as int]@[c1 as int] == allpairs[i as int].1);
                assert forall|r: int| i <= r < pre.dim implies #[trigger] self.rows@[r]@[c0 as int]
                    == allpairs[r].0 && self.rows@[r]@[c1 as int] == allpairs[r].1 by {
                    if r != i {
                        assert(self.rows@[r] == rows_entry[r]);
                        assert(rows_entry[r]@[c0 as int] == allpairs[r].0);
                    }
                }
            }
        }
        proof {
            assert forall|r: int, c: int|
                0 <= r < pre.dim && 0 <= c < pre.dim implies (#[trigger] self.rows@[r]@[c]).wf() by {
                assert(self.rows@[r]@[c0 as int] == allpairs[r].0);
                if c == c0 as int {
                    assert(self.ent(r, c) == allpairs[r].0);
                } else if c == c1 as int {
                    assert(self.ent(r, c) == allpairs[r].1);
                } else {
                    assert(self.ent(r, c) == pre.ent(r, c));
                }
            }
            assert(self.wf());
            assert forall|r: int, e: int| 0 <= r < pre.dim implies #[trigger] self.at(
                r,
                k - 1,
                e,
            ) == sigma_p_val(pre.ent(r, k as int - 1), pre.ent(r, k as int), e) by {
                assert(self.rows@[r]@[c0 as int] == allpairs[r].0);
                assert(allpairs[r].0.coeff(e) == sigma_p_val(
                    pre.ent(r, c0 as int),
                    pre.ent(r, c1 as int),
                    e,
                ));
            }
            assert forall|r: int, e: int| 0 <= r < pre.dim implies #[trigger] self.at(
                r,
                k as int,
                e,
            ) == sigma_q_val(pre.ent(r, k as int - 1), e) by {
                assert(self.rows@[r]@[c0 as int] == allpairs[r].0);
                assert(self.rows@[r]@[c1 as int] == allpairs[r].1);
                assert(allpairs[r].1.coeff(e) == sigma_q_val(pre.ent(r, c0 as int), e));
            }
            assert(sigma_applied(*self, pre, k as int));
        }
    }

    /// Right-multiplies the matrix by the inverse elementary matrix
    /// `U_k^{-1}`, with the same leniencies as `apply_sigma`.
    pub fn apply_inverse_sigma(&mut self, k: usize)
        requires
            old(self).wf(),
        ensures
            final(self).wf(),
            final(self).dim == old(self).dim,
            (k < 1 || k >= old(self).dim) ==> *final(self) == *old(self),
            (1 <= k && k < old(self).dim && inv_fits(*old(self), k as int)) ==> inv_applied(
                *final(self),
                *old(self),
                k as int,
            ),
            (1 <= k && k < old(self).dim && !inv_fits(*old(self), k as int)) ==> *final(self)
                == *old(self),
    {
        if k == 0 || k >= self.dim {
            return ;
        }
        let c0 = k - 1;
        let c1 = k;
        let mut pairs: Vec<(LaurentPoly, LaurentPoly)> = Vec::new();
        let mut i: usize = 0;
        while i < self.dim
            invariant
                *self == *old(self),
                self.wf(),
                1 <= k < self.dim,
                c0 == k - 1,
                c1 == k,
                i <= self.dim,
                pairs@.len() == i,
                forall|r: int|
                    0 <= r < i ==> (#[trigger] pairs@[r].0).wf() && pairs@[r].1.wf(),
                forall|r: int|
                    0 <= r < i ==> inv_cols_fits(#[trigger] self.ent(r, c0 as int), self.ent(r, c1 as int)),
                forall|r: int, e: int|
                    0 <= r < i ==> (#[trigger] pairs@[r].0.coeff(e)) == inv_p_val(
                        self.ent(r, c1 as int),
                        e,
                    ),
                forall|r: int, e: int|
                    0 <= r < i ==> (#[trigger] pairs@[r].1.coeff(e)) == inv_q_val(
                        self.ent(r, c0 as int),
                        self.ent(r, c1 as int),
                        e,
                    ),
            decreases self.dim - i,
        {
            let row = &self.rows[i];
            match inv_cols(&row[c0], &row[c1]) {
                None => {
                    proof {
                        assert(!inv_cols_fits(
                            old(self).ent(i as int, k - 1),
                            old(self).ent(i as int, k as int),
                        ));
                    }
                    return ;
                },
                Some(pair) => {
                    pairs.push(pair);
                },
            }
            i = i + 1;
        }
        let ghost pre = *self;
        let ghost allpairs = pairs@;
        let mut i: usize = self.dim;
        while i > 0
            invariant
                0 <= i <= self.dim,
                self.dim == pre.dim,
                1 <= k < pre.dim,
                c0 == k - 1,
                c1 == k,
                pre.wf(),
                pairs@ == allpairs.take(i as int),
                allpairs.len() == pre.dim,
                forall|r: int|
                    0 <= r < pre.dim ==> (#[trigger] allpairs[r].0).wf() && allpairs[r].1.wf(),
                forall|r: int, e: int|
                    0 <= r < pre.dim ==> (#[trigger] allpairs[r].0.coeff(e)) == inv_p_val(
                        pre.ent(r, c1 as int),
                        e,
                    ),
                forall|r: int, e: int|
                    0 <= r < pre.dim ==> (#[trigger] allpairs[r].1.coeff(e)) == inv_q_val(
                        pre.ent(r, c0 as int),
                        pre.ent(r, c1 as int),
                        e,
                    ),
                self.rows@.len() == pre.dim,
                forall|r: int| 0 <= r < i ==> #[trigger] self.rows@[r] == pre.rows@[r],
                forall|r: int|
                    i <= r < pre.dim ==> (#[trigger] self.rows@[r])@.len() == pre.dim,
                forall|r: int, c: int|
                    i <= r < pre.dim && 0 <= c < pre.dim && c != c0 && c != c1
                        ==> #[trigger] self.rows@[r]@[c] == pre.rows@[r]@[c],
                forall|r: int|
                    i <= r < pre.dim ==> #[trigger] self.rows@[r]@[c0 as int] == allpairs[r].0
                        && self.rows@[r]@[c1 as int] == allpairs[r].1,
            decreases i,
        {
            let ghost rows_entry = self.rows@;
            i = i - 1;
            let pair = pairs.pop().unwrap();
            proof {
                assert(allpairs.take(i as int + 1).last() == allpairs[i as int]);
                assert(allpairs.take(i as int + 1).drop_last() =~= allpairs.take(i as int));
            }
            self.rows[i][c0] = pair.0;
            self.rows[i][c1] = pair.1;
            proof {
                assert(self.rows@[i as int]@[c0 as int] == allpairs[i as int].0);
                assert(self.rows@[i as int]@[c1 as int] == allpairs[i as int].1);
                assert forall|r: int| i <= r < pre.dim implies #[trigger] self.rows@[r]@[c0 as int]
                    == allpairs[r].0 && self.rows@[r]@[c1 as int] == allpairs[r].1 by {
                    if r != i {
                        assert(self.rows@[r] == rows_entry[r]);
                        assert(rows_entry[r]@[c0 as int] == allpairs[r].0);
                    }
                }
            }
        }
        proof {
            assert forall|r: int, c: int|
                0 <= r < pre.dim && 0 <= c < pre.dim implies (#[trigger] self.rows@[r]@[c]).wf() by {
                assert(self.rows@[r]@[c0 as int] == allpairs[r].0);
                if c == c0 as int {
                    assert(self.ent(r, c) == allpairs[r].0);
                } else if c == c1 as int {
                    assert(self.ent(r, c) == allpairs[r].1);
                } else {
                    assert(self.ent(r, c) == pre.ent(r, c));
                }
            }
            assert(self.wf());
            assert forall|r: int, e: int| 0 <= r < pre.dim implies #[trigger] self.at(
                r,
                k - 1,
                e,
            ) == inv_p_val(pre.ent(r, k as int), e) by {
                assert(self.rows@[r]@[c0 as int] == allpairs[r].0);
                assert(allpairs[r].0.coeff(e) == inv_p_val(pre.ent(r, c1 as int), e));
            }
            assert forall|r: int, e: int| 0 <= r < pre.dim implies #[trigger] self.at(
                r,
                k as int,
                e,
            ) == inv_q_val(pre.ent(r, k as int - 1), pre.ent(r, k as int), e) by {
                assert(self.rows@[r]@[c0 as int] == allpairs[r].0);
                assert(self.rows@[r]@[c1 as int] == allpairs[r].1);
                assert(allpairs[r].1.coeff(e) == inv_q_val(
                    pre.ent(r, c0 as int),
                    pre.ent(r, c1 as int),
                    e,
                ));
            }
            assert(inv_applied(*self, pre, k as int));
        }
    }
}

/// After `U_k` has been applied, applying `U_k^{-1}` is always representable:
/// the coefficients it produces are exactly those of the matrix before `U_k`.
pub proof fn lemma_inverse_fits_after_sigma(m0: BurauMatrix, m1: BurauMatrix, k: int)
    requires
        m0.wf(),
        1 <= k < m0.dim,
        sigma_applied(m1, m0, k),
    ensures
        inv_fits(m1, k),
{
    assert forall|i: int| 0 <= i < m1.dim implies inv_cols_fits(
        #[trigger] m1.ent(i, k - 1),
        m1.ent(i, k),
    ) by {
        let p1 = m1.ent(i, k - 1);
        let q1 = m1.ent(i, k);
        let p0 = m0.ent(i, k - 1);
        let q0 = m0.ent(i, k);
        assert forall|e: int| #[trigger] inv_q_val(p1, q1, e) == q0.coeff(e) by {
            assert(m1.at(i, k - 1, e) == sigma_p_val(p0, q0, e));
            assert(m1.at(i, k, e) == sigma_q_val(p0, e));
            assert(m1.at(i, k, e + 1) == sigma_q_val(p0, e + 1));
        }
        assert forall|e: int| #[trigger] inv_p_val(q1, e) == p0.coeff(e) by {
            assert(m1.at(i, k, e + 1) == sigma_q_val(p0, e + 1));
        }
    }
}

/// After `U_k^{-1}` has been applied, applying `U_k` is always representable.
pub proof fn lemma_sigma_fits_after_inverse(m0: BurauMatrix, m1: BurauMatrix, k: int)
    requires
        m0.wf(),
        1 <= k < m0.dim,
        inv_applied(m1, m0, k),
    ensures
        sigma_fits(m1, k),
{
    assert forall|i: int| 0 <= i < m1.dim implies sigma_cols_fits(
        #[trigger] m1.ent(i, k - 1),
        m1.ent(i, k),
    ) by {
        let p1 = m1.ent(i, k - 1);
        let q1 = m1.ent(i, k);
        let p0 = m0.ent(i, k - 1);
        let q0 = m0.ent(i, k);
        assert forall|e: int| #[trigger] sigma_p_val(p1, q1, e) == p0.coeff(e) by {
            assert(m1.at(i, k - 1, e) == inv_p_val(q0, e));
            assert(m1.at(i, k - 1, e - 1) == inv_p_val(q0, e - 1));
            assert(m1.at(i, k, e) == inv_q_val(p0, q0, e));
        }
        assert forall|e: int| #[trigger] sigma_q_val(p1, e) == q0.coeff(e) by {
            assert(m1.at(i, k - 1, e - 1) == inv_p_val(q0, e - 1));
        }
    }
}

/// The sum of the coefficients of `t^e` over the first `n` diagonal entries.
pub open spec fn diag_sum(m: BurauMatrix, n: int, e: int) -> int
    decreases n,
{
    if n <= 0 {
        0
    } else {
        diag_sum(m, n - 1, e) + m.at(n - 1, n - 1, e)
    }
}

/// The coefficient of `t^e` in the trace of the matrix.
pub open spec fn trace_val(m: BurauMatrix, e: int) -> int {
    diag_sum(m, m.dim as int, e)
}

/// The exact trace is representable as a single polynomial.
pub open spec fn trace_fits(m: BurauMatrix) -> bool {
    &&& forall|e: int| i64::MIN <= #[trigger] trace_val(m, e) <= i64::MAX
    &&& forall|e: int| #[trigger] trace_val(m, e) != 0 ==> -EXP_BOUND <= e && e < EXP_BOUND
}

/// When every diagonal entry has a zero coefficient of `t^e`, the partial
/// diagonal sums at `e` are zero.
proof fn lemma_diag_sum_zero(m: BurauMatrix, n: int, e: int)
    requires
        0 <= n <= m.dim,
        forall|r: int| 0 <= r < n ==> #[trigger] m.at(r, r, e) == 0,
    ensures
        diag_sum(m, n, e) == 0,
    decreases n,
{
    if n > 0 {
        lemma_diag_sum_zero(m, n - 1, e);
    }
}

impl BurauMatrix {
    /// The exact trace of the matrix: the sum of its diagonal entries, as a
    /// Laurent polynomial. `None` exactly when a coefficient of the sum
    /// leaves the representable range.
    pub fn trace(&self) -> (r: Option<LaurentPoly>)
        requires
            self.wf(),
        ensures
            match r {
                Some(p) => {
                    &&& p.wf()
                    &&& trace_fits(*self)
                    &&& forall|e: int| #[trigger] p.coeff(e) == trace_val(*self, e)
                },
                None => !trace_fits(*self),
            },
    {
        // the hull of the diagonal supports
        let mut lo_h: i64 = 0;
        let mut hi_h: i64 = 0;
        let mut any = false;
        let mut i: usize = 0;
        while i < self.dim
            invariant
                self.wf(),
                i <= self.dim,
                !any ==> lo_h == 0 && hi_h == 0,
                !any ==> forall|r: int|
                    0 <= r < i ==> (#[trigger] self.ent(r, r)).coeffs@.len() == 0,
                any ==> -EXP_BOUND <= lo_h && lo_h <= hi_h && hi_h <= EXP_BOUND,
                forall|r: int|
                    0 <= r < i && (#[trigger] self.ent(r, r)).coeffs@.len() > 0 ==> lo_h
                        <= self.ent(r, r).lo && self.ent(r, r).lo + self.ent(r, r).coeffs@.len()
                        <= hi_h,
            decreases self.dim - i,
        {
            let p = &self.rows[i][i];
            if p.coeffs.len() > 0 {
                let plo = p.lo;
                let phi = p.lo + (p.coeffs.len() as i64);
                if !any {
                    any = true;
                    lo_h = plo;
                    hi_h = phi;
                } else {
                    if plo < lo_h {
                        lo_h = plo;
                    }
                    if phi > hi_h {
                        hi_h = phi;
                    }
                }
            }
            i = i + 1;
        }
        if !any {
            let z = LaurentPoly::zero();
            proof {
                assert forall|e: int| #[trigger] trace_val(*self, e) == 0 by {
                    assert forall|r: int| 0 <= r < self.dim implies #[trigger] self.at(r, r, e)
                        == 0 by {
                        assert(self.ent(r, r).coeffs@.len() == 0);
                    }
                    lemma_diag_sum_zero(*self, self.dim as int, e);
                }
            }
            return Some(z);
        }
        // accumulate the diagonal sums exactly in i128
        let mut raw: Vec<i128> = Vec::new();
        let mut e: i64 = lo_h;
        while e < hi_h
            invariant
                self.wf(),
                -EXP_BOUND <= lo_h && lo_h <= e <= hi_h && hi_h <= EXP_BOUND,
                raw@.len() == e - lo_h,
                forall|j: int|
                    lo_h <= j < e ==> #[trigger] raw@[j - lo_h] as int == trace_val(*self, j),
            decreases hi_h - e,
        {
            let ghost min64: int = i64::MIN as int;
            let ghost max64: int = i64::MAX as int;
            let mut acc: i128 = 0;
            let mut i: usize = 0;
            while i < self.dim
                invariant
                    self.wf(),
                    i <= self.dim,
                    -EXP_BOUND <= e <= EXP_BOUND,
                    min64 == i64::MIN as int,
                    max64 == i64::MAX as int,
                    (i as int) * min64 <= acc as int <= (i as int) * max64,
                    acc as int == diag_sum(*self, i as int, e as int),
                decreases self.dim - i,
            {
                let v = crate::poly::coeff_at(&self.rows[i][i], e);
                proof {
                    assert((i as int + 1) * min64 == (i as int) * min64 + min64) by (nonlinear_arith);
                    assert((i as int + 1) * max64 == (i as int) * max64 + max64) by (nonlinear_arith);
                    assert((i as int) * min64 >= 0x1_0000_0000 * min64) by (nonlinear_arith)
                        requires
                            0 <= i as int <= 0x1_0000_0000,
                            min64 < 0,
                    ;
                    assert((i as int) * max64 <= 0x1_0000_0000 * max64) by (nonlinear_arith)
                        requires
                            0 <= i as int <= 0x1_0000_0000,
                            max64 > 0,
                    ;
                }
                acc = acc + (v as i128);
                i = i + 1;
            }
            raw.push(acc);
            e = e + 1;
        }
        proof {
            assert forall|j: int| (j < lo_h || j >= hi_h) implies #[trigger] trace_val(*self, j)
                == 0 by {
                assert forall|r: int| 0 <= r < self.dim implies #[trigger] self.at(r, r, j)
                    == 0 by {
                    let p = self.ent(r, r);
                    if p.coeffs@.len() > 0 {
                        assert(lo_h <= p.lo && p.lo + p.coeffs@.len() <= hi_h);
                    }
                }
                lemma_diag_sum_zero(*self, self.dim as int, j);
            }
            assert forall|j: int| #[trigger] crate::poly::raw_val(lo_h as int, raw@, j)
                == trace_val(*self, j) by {
                if lo_h <= j < hi_h {
                    assert(crate::poly::raw_val(lo_h as int, raw@, j) == raw@[j - lo_h] as int);
                }
            }
        }
        match crate::poly::build_canonical(lo_h, &raw) {
            Some(p) => {
                proof {
                    assert forall|e2: int|
                        i64::MIN <= #[trigger] trace_val(*self, e2) && trace_val(*self, e2)
                            <= i64::MAX by {
                        assert(crate::poly::raw_val(lo_h as int, raw@, e2) == trace_val(*self, e2));
                    }
                    assert forall|e2: int| #[trigger] trace_val(*self, e2) != 0 implies -EXP_BOUND
                        <= e2 && e2 < EXP_BOUND by {
                        assert(crate::poly::raw_val(lo_h as int, raw@, e2) == trace_val(*self, e2));
                    }
                    assert forall|e2: int| #[trigger] p.coeff(e2) == trace_val(*self, e2) by {
                        assert(p.coeff(e2) == crate::poly::raw_val(lo_h as int, raw@, e2));
                    }
                }
                Some(p)
            },
            None => {
                proof {
                    if trace_fits(*self) {
                        assert forall|e2: int|
                            i64::MIN <= #[trigger] crate::poly::raw_val(lo_h as int, raw@, e2)
                                && crate::poly::raw_val(lo_h as int, raw@, e2) <= i64::MAX by {
                            assert(crate::poly::raw_val(lo_h as int, raw@, e2) == trace_val(
                                *self,
                                e2,
                            ));
                        }
                        assert forall|e2: int| #[trigger] crate::poly::raw_val(
                            lo_h as int,
                            raw@,
                            e2,
                        ) != 0 implies -EXP_BOUND <= e2 && e2 < EXP_BOUND by {
                            assert(crate::poly::raw_val(lo_h as int, raw@, e2) == trace_val(
                                *self,
                                e2,
                            ));
                        }
                    }
                }
                None
            },
        }
    }
}

/// The partial diagonal sums of the identity matrix count its rows at
/// exponent zero.
proof fn lemma_diag_sum_identity(m: BurauMatrix, n: int, e: int)
    requires
        m.wf(),
        m.is_identity_spec(),
        0 <= n <= m.dim,
    ensures
        diag_sum(m, n, e) == if e == 0 {
            n
        } else {
            0
        },
    decreases n,
{
    if n > 0 {
        lemma_diag_sum_identity(m, n - 1, e);
        assert(m.at(n - 1, n - 1, e) == id_coeff(n - 1, n - 1, e));
    }
}

/// At the identity matrix the trace is the constant `dim`, so its magnitude
/// at any evaluation point `t` on the unit circle is exactly `dim`.
pub proof fn lemma_identity_trace(m: BurauMatrix)
    requires
        m.wf(),
        m.is_identity_spec(),
    ensures
        trace_fits(m),
        forall|e: int| #[trigger] trace_val(m, e) == if e == 0 {
            m.dim as int
        } else {
            0
        },
{
    assert forall|e: int| #[trigger] trace_val(m, e) == (if e == 0 {
        m.dim as int
    } else {
        0int
    }) by {
        lemma_diag_sum_identity(m, m.dim as int, e);
    }
}

/// Applying a generator and then its inverse returns the matrix to exactly
/// its prior value: the elementary matrices are algebraic inverses.
pub proof fn lemma_sigma_then_inverse_identity(
    m0: BurauMatrix,
    m1: BurauMatrix,
    m2: BurauMatrix,
    k: int,
)
    requires
        m0.wf(),
        1 <= k < m0.dim,
        sigma_applied(m1, m0, k),
        inv_applied(m2, m1, k),
    ensures
        m2.dim == m0.dim,
        forall|i: int, j: int, e: int|
            0 <= i < m0.dim && 0 <= j < m0.dim ==> #[trigger] m2.at(i, j, e) == m0.at(i, j, e),
{
    assert forall|i: int, j: int, e: int|
        0 <= i < m0.dim && 0 <= j < m0.dim implies #[trigger] m2.at(i, j, e) == m0.at(
        i,
        j,
        e,
    ) by {
        let p0 = m0.ent(i, k - 1);
        let q0 = m0.ent(i, k);
        if j == k - 1 {
            assert(m2.at(i, j, e) == inv_p_val(m1.ent(i, k), e));
            assert(m1.at(i, k, e + 1) == sigma_q_val(p0, e + 1));
        } else if j == k {
            assert(m2.at(i, j, e) == inv_q_val(m1.ent(i, k - 1), m1.ent(i, k), e));
            assert(m1.at(i, k - 1, e) == sigma_p_val(p0, q0, e));
            assert(m1.at(i, k, e) == sigma_q_val(p0, e));
            assert(m1.at(i, k, e + 1) == sigma_q_val(p0, e + 1));
        } else {
            assert(m2.ent(i, j) == m1.ent(i, j));
            assert(m1.ent(i, j) == m0.ent(i, j));
        }
    }
}

/// Applying an inverse generator and then the generator itself also returns
/// the matrix to exactly its prior value.
pub proof fn lemma_inverse_then_sigma_identity(
    m0: BurauMatrix,
    m1: BurauMatrix,
    m2: BurauMatrix,
    k: int,
)
    requires
        m0.wf(),
        1 <= k < m0.dim,
        inv_applied(m1, m0, k),
        sigma_applied(m2, m1, k),
    ensures
        m2.dim == m0.dim,
        forall|i: int, j: int, e: int|
            0 <= i < m0.dim && 0 <= j < m0.dim ==> #[trigger] m2.at(i, j, e) == m0.at(i, j, e),
{
    assert forall|i: int, j: int, e: int|
        0 <= i < m0.dim && 0 <= j < m0.dim implies #[trigger] m2.at(i, j, e) == m0.at(
        i,
        j,
        e,
    ) by {
        let p0 = m0.ent(i, k - 1);
        let q0 = m0.ent(i, k);
        if j == k - 1 {
            assert(m2.at(i, j, e) == sigma_p_val(m1.ent(i, k - 1), m1.ent(i, k), e));
            assert(m1.at(i, k - 1, e) == inv_p_val(q0, e));
            assert(m1.at(i, k - 1, e - 1) == inv_p_val(q0, e - 1));
            assert(m1.at(i, k, e) == inv_q_val(p0, q0, e));
        } else if j == k {
            assert(m2.at(i, j, e) == sigma_q_val(m1.ent(i, k - 1), e));
            assert(m1.at(i, k - 1, e - 1) == inv_p_val(q0, e - 1));
        } else {
            assert(m2.ent(i, j) == m1.ent(i, j));
            assert(m1.ent(i, j) == m0.ent(i, j));
        }
    }
}

} // verus!
