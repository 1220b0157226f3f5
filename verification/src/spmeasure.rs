//! The Sum-of-Pairs conservation measure.
//!
//! A raw 20x20 substitution table is rescaled onto [0, 1] by the
//! global linear map `(v - min) / (max - min)` ([`normalize_matrix`]),
//! the weight vector is reduced to the scaling constant
//! `lambda = 1 / (sum of w_i * w_j over pairs i < j)` ([`calc_lambda`]),
//! and each alignment column is folded into one score: the
//! lambda-scaled sum over pairs of `w_i * w_j * M[a_i, a_j]`, a pair
//! contributing zero when either position holds a gap ([`calc_sp`],
//! [`score_with_matrix`], [`sum_of_pairs`]).

use vstd::prelude::*;
use crate::alphabet::{index_of, is_gap, is_residue, residue_index, valid_site};
use crate::error::{ArithmeticKind, IntegrityKind, SpError};
use crate::matrices::{define_matrix, is_symmetric, matrix_id_spec, recognized_matrix, table_spec};
use crate::rational::{
    lemma_q_add_congr, lemma_q_eq_trans, lemma_q_mul_congr, lemma_q_ops_wf,
    q_add, q_canon, q_eq, q_fits, q_int, q_inv, q_le, q_mul, q_wf, Q, Rat,
};

verus! {

/// The mathematical values of a weight vector.
pub open spec fn weight_views(w: Seq<Rat>) -> Seq<Q> {
    w.map_values(|r: Rat| r@)
}

/// All weights are well-formed fractions.
pub open spec fn weights_wf(w: Seq<Rat>) -> bool {
    forall|i: int| 0 <= i < w.len() ==> (#[trigger] w[i]).wf()
}

/// Largest of the first `k` entries.
pub open spec fn max_upto(m: Seq<i64>, k: int) -> int
    decreases k,
{
    if k <= 1 {
        m[0] as int
    } else {
        let p = max_upto(m, k - 1);
        if m[k - 1] as int > p {
            m[k - 1] as int
        } else {
            p
        }
    }
}

/// Smallest of the first `k` entries.
pub open spec fn min_upto(m: Seq<i64>, k: int) -> int
    decreases k,
{
    if k <= 1 {
        m[0] as int
    } else {
        let p = min_upto(m, k - 1);
        if (m[k - 1] as int) < p {
            m[k - 1] as int
        } else {
            p
        }
    }
}

/// Largest entry of the table.
pub open spec fn mat_max(m: Seq<i64>) -> int {
    max_upto(m, m.len() as int)
}

/// Smallest entry of the table.
pub open spec fn mat_min(m: Seq<i64>) -> int {
    min_upto(m, m.len() as int)
}

/// The raw table can be rescaled: 400 entries, not constant,
/// symmetric, and the rescale denominator fits 64 bits.
pub open spec fn norm_ok(raw: Seq<i64>) -> bool {
    &&& raw.len() == 400
    &&& mat_max(raw) != mat_min(raw)
    &&& is_symmetric(raw)
    &&& mat_max(raw) - mat_min(raw) <= i64::MAX as int
}

/// Some entry of the first 400 denotes the value `v`.
pub open spec fn attains(m: Seq<Q>, v: Q) -> bool {
    exists|k: int| 0 <= k < 400 && q_eq(#[trigger] m[k], v)
}

/// The rescaled table: entry `k` is `(m[k] - min) / (max - min)`.
pub open spec fn norm_q(m: Seq<i64>) -> Seq<Q> {
    Seq::new(400, |k: int| Q { n: m[k] - mat_min(m), d: mat_max(m) - mat_min(m) })
}

/// A substitution table rescaled onto [0, 1]: 400 exact fractions in
/// row-major alphabet order, symmetric, with least entry 0 and
/// greatest entry 1.
pub struct NormMatrix {
    entries: Vec<Rat>,
}

impl View for NormMatrix {
    type V = Seq<Q>;

    closed spec fn view(&self) -> Seq<Q> {
        self.entries@.map_values(|r: Rat| r@)
    }
}

impl NormMatrix {
    pub open spec fn wf(self) -> bool {
        &&& self@.len() == 400
        &&& forall|k: int| 0 <= k < 400 ==> q_wf(#[trigger] self@[k])
    }

    /// Entry for the ordered residue pair `(a, b)`.
    pub open spec fn entry(self, a: int, b: int) -> Q {
        self@[a * 20 + b]
    }

    /// Read the entry for the residue-index pair `(a, b)`.
    pub fn get(&self, a: usize, b: usize) -> (r: Rat)
        requires
            self.wf(),
            a < 20,
            b < 20,
        ensures
            r.wf(),
            r@ == self.entry(a as int, b as int),
    {
        proof {
            assert(self@[a as int * 20 + b as int] == self.entries@[a as int * 20 + b as int]@);
            assert(q_wf(self@[a as int * 20 + b as int]));
        }
        self.entries[a * 20 + b]
    }
}

/// Sum of the first `k` weights.
pub open spec fn w_sum(ws: Seq<Q>, k: int) -> Q
    decreases k,
{
    if k <= 0 {
        q_int(0)
    } else {
        q_add(w_sum(ws, k - 1), ws[k - 1])
    }
}

/// Total pairwise weight mass over the first `k` weights: the sum of
/// `ws[i] * ws[j]` over all pairs `i < j < k`, folded one `j` at a
/// time as `(w_0 + ... + w_{j-1}) * w_j`.
pub open spec fn pair_mass_upto(ws: Seq<Q>, k: int) -> Q
    decreases k,
{
    if k <= 0 {
        q_int(0)
    } else {
        q_add(pair_mass_upto(ws, k - 1), q_mul(w_sum(ws, k - 1), ws[k - 1]))
    }
}

/// Total pairwise weight mass `sum of ws[i] * ws[j] over pairs i < j`.
pub open spec fn pair_mass(ws: Seq<Q>) -> Q {
    pair_mass_upto(ws, ws.len() as int)
}

/// At most one weight is nonzero, so every pairwise product vanishes.
pub open spec fn at_most_one_nonzero(ws: Seq<Q>) -> bool {
    forall|i: int, j: int|
        0 <= i < j < ws.len() ==> (#[trigger] ws[i]).n == 0 || (#[trigger] ws[j]).n == 0
}

/// The executable fold of [`calc_lambda`] over the first `j`
/// weights: the canonical prefix sum and canonical pairwise mass
/// after `j` steps, or `None` once a reduced intermediate leaves the
/// 64-bit range.
pub open spec fn lam_fold(ws: Seq<Q>, j: int) -> Option<(Q, Q)>
    decreases j,
{
    if j <= 0 {
        Some((q_int(0), q_int(0)))
    } else {
        match lam_fold(ws, j - 1) {
            None => None,
            Some((s, a)) => {
                let t = q_mul(s, ws[j - 1]);
                if !q_fits(t) {
                    None
                } else {
                    let a2 = q_add(a, q_canon(t));
                    if !q_fits(a2) {
                        None
                    } else {
                        let s2 = q_add(s, ws[j - 1]);
                        if !q_fits(s2) {
                            None
                        } else {
                            Some((q_canon(s2), q_canon(a2)))
                        }
                    }
                }
            },
        }
    }
}

/// Once the fold has failed it stays failed.
proof fn lemma_lam_fold_none(ws: Seq<Q>, j: int, k: int)
    requires
        0 <= j <= k,
        lam_fold(ws, j) is None,
    ensures
        lam_fold(ws, k) is None,
    decreases k,
{
    if k > j {
        lemma_lam_fold_none(ws, j, k - 1);
    }
}

/// The weight vector admits a scaling constant within 64-bit range:
/// two or more weights, not all pairwise products zero, and the
/// folded mass representable with nonzero, invertible numerator.
pub open spec fn lambda_ok(ws: Seq<Q>, n: int) -> bool {
    &&& n >= 2
    &&& !at_most_one_nonzero(ws)
    &&& lam_fold(ws, n) is Some
    &&& lam_fold(ws, n).unwrap().1.n != 0
    &&& lam_fold(ws, n).unwrap().1.n != i64::MIN as int
}

/// The scaling constant the pipeline produces when [`lambda_ok`].
pub open spec fn lambda_value(ws: Seq<Q>, n: int) -> Q {
    q_inv(lam_fold(ws, n).unwrap().1)
}

/// A sum of weights with all-zero numerators has numerator zero.
proof fn lemma_zero_sum(ws: Seq<Q>, k: int)
    requires
        0 <= k <= ws.len(),
        forall|i: int| 0 <= i < k ==> (#[trigger] ws[i]).n == 0,
    ensures
        w_sum(ws, k).n == 0,
    decreases k,
{
    if k > 0 {
        lemma_zero_sum(ws, k - 1);
    }
}

/// With at most one nonzero weight the pairwise mass is zero.
proof fn lemma_amo_mass(ws: Seq<Q>, k: int)
    requires
        0 <= k <= ws.len(),
        at_most_one_nonzero(ws),
    ensures
        pair_mass_upto(ws, k).n == 0,
    decreases k,
{
    if k > 0 {
        lemma_amo_mass(ws, k - 1);
        let a = pair_mass_upto(ws, k - 1);
        let b = q_mul(w_sum(ws, k - 1), ws[k - 1]);
        if ws[k - 1].n != 0 {
            assert(forall|i: int| 0 <= i < k - 1 ==> (#[trigger] ws[i]).n == 0);
            lemma_zero_sum(ws, k - 1);
        }
        assert(b.n == 0) by (nonlinear_arith)
            requires
                b.n == w_sum(ws, k - 1).n * ws[k - 1].n,
                w_sum(ws, k - 1).n == 0 || ws[k - 1].n == 0,
        ;
        assert(pair_mass_upto(ws, k).n == a.n * b.d + b.n * a.d);
        assert(pair_mass_upto(ws, k).n == 0) by (nonlinear_arith)
            requires
                pair_mass_upto(ws, k).n == a.n * b.d + b.n * a.d,
                a.n == 0,
                b.n == 0,
        ;
    }
}

/// A sum of well-formed weights is well formed.
proof fn lemma_w_sum_wf(ws: Seq<Q>, k: int)
    requires
        0 <= k <= ws.len(),
        forall|i: int| 0 <= i < ws.len() ==> q_wf(#[trigger] ws[i]),
    ensures
        q_wf(w_sum(ws, k)),
    decreases k,
{
    if k > 0 {
        lemma_w_sum_wf(ws, k - 1);
        lemma_q_ops_wf(w_sum(ws, k - 1), ws[k - 1]);
    }
}

/// The pairwise mass of well-formed weights is well formed.
proof fn lemma_pair_mass_wf(ws: Seq<Q>, k: int)
    requires
        0 <= k <= ws.len(),
        forall|i: int| 0 <= i < ws.len() ==> q_wf(#[trigger] ws[i]),
    ensures
        q_wf(pair_mass_upto(ws, k)),
    decreases k,
{
    if k > 0 {
        lemma_pair_mass_wf(ws, k - 1);
        lemma_w_sum_wf(ws, k - 1);
        lemma_q_ops_wf(w_sum(ws, k - 1), ws[k - 1]);
        lemma_q_ops_wf(pair_mass_upto(ws, k - 1), q_mul(w_sum(ws, k - 1), ws[k - 1]));
    }
}

/// Contribution of the ordered pair `(i, j)` of column positions:
/// zero when either holds a gap, else `ws[i] * ws[j] * M[a_i, a_j]`.
pub open spec fn pair_term(col: Seq<char>, ws: Seq<Q>, m: Seq<Q>, i: int, j: int) -> Q {
    if is_gap(col[i]) || is_gap(col[j]) {
        q_int(0)
    } else {
        q_mul(q_mul(ws[i], ws[j]), m[residue_index(col[i]) * 20 + residue_index(col[j])])
    }
}

/// Sum of the contributions of pairs `(i, j)` with `i < k`.
pub open spec fn site_row(col: Seq<char>, ws: Seq<Q>, m: Seq<Q>, j: int, k: int) -> Q
    decreases k,
{
    if k <= 0 {
        q_int(0)
    } else {
        q_add(site_row(col, ws, m, j, k - 1), pair_term(col, ws, m, k - 1, j))
    }
}

/// Sum of the contributions of all pairs `i < j < k`.
pub open spec fn site_score_upto(col: Seq<char>, ws: Seq<Q>, m: Seq<Q>, k: int) -> Q
    decreases k,
{
    if k <= 0 {
        q_int(0)
    } else {
        q_add(site_score_upto(col, ws, m, k - 1), site_row(col, ws, m, k - 1, k - 1))
    }
}

/// Raw (unscaled) Sum-of-Pairs value of one column: the sum of
/// `pair_term` over all unordered position pairs.
pub open spec fn site_raw(col: Seq<char>, ws: Seq<Q>, m: Seq<Q>) -> Q {
    site_score_upto(col, ws, m, col.len() as int)
}

/// All entries of a rescaled-table value are well formed.
pub open spec fn matrix_q_wf(m: Seq<Q>) -> bool {
    &&& m.len() == 400
    &&& forall|k: int| 0 <= k < 400 ==> q_wf(#[trigger] m[k])
}

/// All weight values are well formed.
pub open spec fn ws_q_wf(ws: Seq<Q>) -> bool {
    forall|i: int| 0 <= i < ws.len() ==> q_wf(#[trigger] ws[i])
}

/// Each pair contribution is well formed.
proof fn lemma_pair_term_wf(col: Seq<char>, ws: Seq<Q>, m: Seq<Q>, i: int, j: int)
    requires
        valid_site(col),
        ws.len() == col.len(),
        0 <= i < col.len(),
        0 <= j < col.len(),
        matrix_q_wf(m),
        ws_q_wf(ws),
    ensures
        q_wf(pair_term(col, ws, m, i, j)),
{
    if !(is_gap(col[i]) || is_gap(col[j])) {
        lemma_q_ops_wf(ws[i], ws[j]);
        lemma_q_ops_wf(q_mul(ws[i], ws[j]), m[residue_index(col[i]) * 20 + residue_index(col[j])]);
    }
}

/// A partial row of pair contributions is well formed.
proof fn lemma_site_row_wf(col: Seq<char>, ws: Seq<Q>, m: Seq<Q>, j: int, k: int)
    requires
        valid_site(col),
        ws.len() == col.len(),
        0 <= j < col.len(),
        0 <= k <= col.len(),
        matrix_q_wf(m),
        ws_q_wf(ws),
    ensures
        q_wf(site_row(col, ws, m, j, k)),
    decreases k,
{
    if k > 0 {
        lemma_site_row_wf(col, ws, m, j, k - 1);
        lemma_pair_term_wf(col, ws, m, k - 1, j);
        lemma_q_ops_wf(site_row(col, ws, m, j, k - 1), pair_term(col, ws, m, k - 1, j));
    }
}

/// A partial column score is well formed.
proof fn lemma_site_score_wf(col: Seq<char>, ws: Seq<Q>, m: Seq<Q>, k: int)
    requires
        valid_site(col),
        ws.len() == col.len(),
        0 <= k <= col.len(),
        matrix_q_wf(m),
        ws_q_wf(ws),
    ensures
        q_wf(site_score_upto(col, ws, m, k)),
    decreases k,
{
    if k > 0 {
        lemma_site_score_wf(col, ws, m, k - 1);
        lemma_site_row_wf(col, ws, m, k - 1, k - 1);
        lemma_q_ops_wf(site_score_upto(col, ws, m, k - 1), site_row(col, ws, m, k - 1, k - 1));
    }
}

/// The executable row fold of [`calc_sp`]: the canonically reduced
/// sum of the contributions of pairs `(i, j)` with `i < k`, or `None`
/// once a reduced intermediate leaves the 64-bit range.
pub open spec fn sp_row_fold(col: Seq<char>, ws: Seq<Q>, m: Seq<Q>, j: int, k: int) -> Option<Q>
    decreases k,
{
    if k <= 0 {
        Some(q_int(0))
    } else {
        match sp_row_fold(col, ws, m, j, k - 1) {
            None => None,
            Some(row) => {
                if is_gap(col[k - 1]) || is_gap(col[j]) {
                    Some(row)
                } else {
                    let t1 = q_mul(ws[k - 1], ws[j]);
                    if !q_fits(t1) {
                        None
                    } else {
                        let t2 = q_mul(
                            q_canon(t1),
                            m[residue_index(col[k - 1]) * 20 + residue_index(col[j])],
                        );
                        if !q_fits(t2) {
                            None
                        } else {
                            let r2 = q_add(row, q_canon(t2));
                            if !q_fits(r2) {
                                None
                            } else {
                                Some(q_canon(r2))
                            }
                        }
                    }
                }
            },
        }
    }
}

/// The executable column fold of [`calc_sp`] over rows `j < k`.
pub open spec fn sp_fold(col: Seq<char>, ws: Seq<Q>, m: Seq<Q>, k: int) -> Option<Q>
    decreases k,
{
    if k <= 1 {
        Some(q_int(0))
    } else {
        match sp_fold(col, ws, m, k - 1) {
            None => None,
            Some(acc) => match sp_row_fold(col, ws, m, k - 1, k - 1) {
                None => None,
                Some(row) => {
                    let a2 = q_add(acc, row);
                    if !q_fits(a2) {
                        None
                    } else {
                        Some(q_canon(a2))
                    }
                },
            },
        }
    }
}

/// The executable result of [`calc_sp`]: the canonical reduced raw
/// score of one column, or `None` when an intermediate leaves the
/// 64-bit range.
pub open spec fn sp_result(col: Seq<char>, ws: Seq<Q>, m: Seq<Q>) -> Option<Q> {
    if col.len() == 0 {
        Some(q_int(0))
    } else {
        sp_fold(col, ws, m, col.len() as int)
    }
}

/// The executable per-column score: the canonically reduced
/// lambda-scaled raw score, or `None` when an intermediate leaves
/// the 64-bit range.
pub open spec fn score_result(col: Seq<char>, ws: Seq<Q>, m: Seq<Q>, lam: Q) -> Option<Q> {
    match sp_result(col, ws, m) {
        None => None,
        Some(v) => {
            let p = q_mul(lam, v);
            if q_fits(p) {
                Some(q_canon(p))
            } else {
                None
            }
        },
    }
}

/// Once the row fold has failed it stays failed.
proof fn lemma_sp_row_none(col: Seq<char>, ws: Seq<Q>, m: Seq<Q>, j: int, k: int, k2: int)
    requires
        0 <= k <= k2,
        sp_row_fold(col, ws, m, j, k) is None,
    ensures
        sp_row_fold(col, ws, m, j, k2) is None,
    decreases k2,
{
    if k2 > k {
        lemma_sp_row_none(col, ws, m, j, k, k2 - 1);
    }
}

/// Once the column fold has failed it stays failed.
proof fn lemma_sp_fold_none(col: Seq<char>, ws: Seq<Q>, m: Seq<Q>, k: int, k2: int)
    requires
        1 <= k <= k2,
        sp_fold(col, ws, m, k) is None,
    ensures
        sp_fold(col, ws, m, k2) is None,
    decreases k2,
{
    if k2 > k {
        lemma_sp_fold_none(col, ws, m, k, k2 - 1);
    }
}

/// A failed row at `(j, k)` fails the whole column fold.
proof fn lemma_sp_overflow(col: Seq<char>, ws: Seq<Q>, m: Seq<Q>, j: int, k: int, n: int)
    requires
        0 <= k <= j < n,
        n == col.len(),
        sp_row_fold(col, ws, m, j, k) is None,
    ensures
        sp_fold(col, ws, m, n) is None,
        sp_result(col, ws, m) is None,
{
    lemma_sp_row_none(col, ws, m, j, k, j);
    assert(sp_fold(col, ws, m, j + 1) is None);
    lemma_sp_fold_none(col, ws, m, j + 1, n);
}

/// Equal scalings of equal values are equal.
proof fn lemma_scale_cancel(x: int, y: int, d: int) by (nonlinear_arith)
    requires
        1 <= d,
    ensures
        (x * d == y * d) <==> x == y,
{
}

/// The least entry never exceeds the greatest.
proof fn lemma_max_ge_min(m: Seq<i64>, k: int)
    requires
        1 <= k <= m.len(),
    ensures
        min_upto(m, k) <= max_upto(m, k),
    decreases k,
{
    if k > 1 {
        lemma_max_ge_min(m, k - 1);
    }
}

/// Rescale a raw substitution table onto [0, 1].
///
/// Checks, in this order: the table holds exactly 400 entries
/// (`Dimension`), it is not constant (`Degenerate`), every rescaled
/// entry is an exact 64-bit fraction (`Overflow`), and the rescaled
/// table is symmetric (`Asymmetric`) - the symmetry check runs on the
/// output, as a defensive check on the transform itself, and with
/// exact arithmetic it fails exactly when the input is asymmetric.
#[verifier::rlimit(60)]
pub fn normalize_matrix(raw: &Vec<i64>) -> (r: Result<NormMatrix, SpError>)
    ensures
        (r == Err::<NormMatrix, SpError>(SpError::Integrity { kind: IntegrityKind::Dimension }))
            <==> raw@.len() != 400,
        (r == Err::<NormMatrix, SpError>(SpError::Integrity { kind: IntegrityKind::Degenerate }))
            <==> (raw@.len() == 400 && mat_max(raw@) == mat_min(raw@)),
        r == Err::<NormMatrix, SpError>(SpError::Integrity { kind: IntegrityKind::Asymmetric })
            ==> raw@.len() == 400 && mat_max(raw@) != mat_min(raw@) && !is_symmetric(raw@),
        r matches Err(e) ==> (e matches SpError::Integrity { .. }) || e == SpError::Overflow,
        raw@.len() == 400 && mat_max(raw@) != mat_min(raw@) && is_symmetric(raw@) ==> !(r
            matches Err(e) && e matches SpError::Integrity { .. }),
        r matches Ok(m) ==> m.wf() && raw@.len() == 400 && mat_max(raw@) != mat_min(raw@)
            && is_symmetric(raw@),
        r matches Ok(m) ==> forall|k: int| 0 <= k < 400 ==> m@[k] == norm_q(raw@)[k],
        r matches Ok(m) ==> forall|k: int|
            0 <= k < 400 ==> q_le(q_int(0), #[trigger] m@[k]) && q_le(m@[k], q_int(1)),
        r matches Ok(m) ==> attains(m@, q_int(1)),
        r matches Ok(m) ==> attains(m@, q_int(0)),
        r matches Ok(m) ==> forall|a: int, b: int|
            0 <= a < 20 && 0 <= b < 20 ==> q_eq(m.entry(a, b), m.entry(b, a)),
        (r == Err::<NormMatrix, SpError>(SpError::Overflow)) <==> (raw@.len() == 400 && mat_max(
            raw@,
        ) != mat_min(raw@) && mat_max(raw@) - mat_min(raw@) > i64::MAX as int),
        raw@.len() == 400 && mat_max(raw@) != mat_min(raw@) && is_symmetric(raw@) && mat_max(raw@)
            - mat_min(raw@) <= i64::MAX as int ==> r is Ok,
        r is Ok <==> norm_ok(raw@),
{
    if raw.len() != 400 {
        return Err(SpError::Integrity { kind: IntegrityKind::Dimension });
    }
    let mut mx: i64 = raw[0];
    let mut mn: i64 = raw[0];
    let mut imx: usize = 0;
    let mut imn: usize = 0;
    let mut k: usize = 1;
    while k < 400
        invariant
            raw@.len() == 400,
            1 <= k <= 400,
            mx as int == max_upto(raw@, k as int),
            mn as int == min_upto(raw@, k as int),
            imx < k,
            raw@[imx as int] == mx,
            imn < k,
            raw@[imn as int] == mn,
            forall|j: int| 0 <= j < k ==> mn as int <= #[trigger] raw@[j] as int <= mx as int,
        decreases 400 - k,
    {
        let v = raw[k];
        if v > mx {
            mx = v;
            imx = k;
        }
        if v < mn {
            mn = v;
            imn = k;
        }
        k += 1;
    }
    if mx == mn {
        return Err(SpError::Integrity { kind: IntegrityKind::Degenerate });
    }
    let wide_d: i128 = mx as i128 - mn as i128;
    if wide_d > i64::MAX as i128 {
        return Err(SpError::Overflow);
    }
    let d: i64 = (mx as i128 - mn as i128) as i64;
    let mut entries: Vec<Rat> = Vec::new();
    let mut k: usize = 0;
    while k < 400
        invariant
            raw@.len() == 400,
            k <= 400,
            entries@.len() == k,
            1 <= d,
            mn as int == mat_min(raw@),
            mx as int == mat_max(raw@),
            d as int == mat_max(raw@) - mat_min(raw@),
            forall|j: int| 0 <= j < 400 ==> mat_min(raw@) <= #[trigger] raw@[j] as int <= mat_max(
                raw@,
            ),
            forall|j: int| 0 <= j < k ==> (#[trigger] entries@[j])@ == norm_q(raw@)[j],
            forall|j: int| 0 <= j < k ==> (#[trigger] entries@[j]).wf(),
        decreases 400 - k,
    {
        let wide_n: i128 = raw[k] as i128 - mn as i128;
        proof {
            assert(0 <= wide_n <= d as int);
        }
        let e = Rat::frac(wide_n as i64, d);
        entries.push(e);
        k += 1;
    }
    // defensive symmetry check on the rescaled table
    let mut a: usize = 0;
    while a < 20
        invariant
            raw@.len() == 400,
            entries@.len() == 400,
            a <= 20,
            mat_max(raw@) != mat_min(raw@),
            mat_max(raw@) - mat_min(raw@) <= i64::MAX as int,
            forall|j: int| 0 <= j < 400 ==> (#[trigger] entries@[j])@ == norm_q(raw@)[j],
            forall|j: int| 0 <= j < 400 ==> (#[trigger] entries@[j]).wf(),
            forall|x: int, y: int|
                0 <= x < a && 0 <= y < 20 ==> q_eq(
                    (#[trigger] entries@[x * 20 + y])@,
                    entries@[y * 20 + x]@,
                ),
        decreases 20 - a,
    {
        let mut b: usize = 0;
        while b < 20
            invariant
                raw@.len() == 400,
                entries@.len() == 400,
                a < 20,
                b <= 20,
                mat_max(raw@) != mat_min(raw@),
                mat_max(raw@) - mat_min(raw@) <= i64::MAX as int,
                forall|j: int| 0 <= j < 400 ==> (#[trigger] entries@[j])@ == norm_q(raw@)[j],
                forall|j: int| 0 <= j < 400 ==> (#[trigger] entries@[j]).wf(),
                forall|x: int, y: int|
                    0 <= x < a && 0 <= y < 20 ==> q_eq(
                        (#[trigger] entries@[x * 20 + y])@,
                        entries@[y * 20 + x]@,
                    ),
                forall|y: int|
                    0 <= y < b ==> q_eq((#[trigger] entries@[a as int * 20 + y])@, entries@[y * 20
                        + a as int]@),
            decreases 20 - b,
        {
            let eab = entries[a * 20 + b];
            let eba = entries[b * 20 + a];
            if !eab.eq_rat(&eba) {
                proof {
                    let m = raw@;
                    let ka = a as int * 20 + b as int;
                    let kb = b as int * 20 + a as int;
                    lemma_max_ge_min(m, 400);
                    lemma_scale_cancel(
                        m[ka] - mat_min(m),
                        m[kb] - mat_min(m),
                        mat_max(m) - mat_min(m),
                    );
                    assert(eab@ == norm_q(m)[ka]);
                    assert(eba@ == norm_q(m)[kb]);
                    assert(m[ka] != m[kb]);
                    assert(!is_symmetric(m)) by {
                        if is_symmetric(m) {
                            assert(m[ka] == m[kb]);
                        }
                    }
                }
                return Err(SpError::Integrity { kind: IntegrityKind::Asymmetric });
            }
            b += 1;
        }
        a += 1;
    }
    let m = NormMatrix { entries };
    proof {
        let s = raw@;
        assert forall|a2: int, b2: int| 0 <= a2 < 20 && 0 <= b2 < 20 implies q_eq(
            m.entry(a2, b2),
            m.entry(b2, a2),
        ) by {
            assert(q_eq(m@[a2 * 20 + b2], m@[b2 * 20 + a2]));
        }
        assert forall|a2: int, b2: int| 0 <= a2 < 20 && 0 <= b2 < 20 implies #[trigger] s[a2 * 20
            + b2] == s[b2 * 20 + a2] by {
            let ka = a2 * 20 + b2;
            let kb = b2 * 20 + a2;
            assert(q_eq(m@[ka], m@[kb]));
            assert(m@[ka] == norm_q(s)[ka]);
            assert(m@[kb] == norm_q(s)[kb]);
            lemma_scale_cancel(s[ka] - mat_min(s), s[kb] - mat_min(s), mat_max(s) - mat_min(s));
        }
        assert forall|k2: int| 0 <= k2 < 400 implies q_le(q_int(0), #[trigger] m@[k2]) && q_le(
            m@[k2],
            q_int(1),
        ) by {
            assert(m@[k2] == norm_q(s)[k2]);
            assert(q_le(q_int(0), m@[k2])) by (nonlinear_arith)
                requires
                    m@[k2].n >= 0,
                    m@[k2].d >= 1,
            ;
            assert(q_le(m@[k2], q_int(1))) by (nonlinear_arith)
                requires
                    m@[k2].n <= m@[k2].d,
                    m@[k2].d >= 1,
            ;
        }
        assert(m@[imx as int] == norm_q(s)[imx as int]);
        assert(m@[imx as int].n == m@[imx as int].d);
        assert(q_eq(m@[imx as int], q_int(1))) by (nonlinear_arith)
            requires
                m@[imx as int].n == m@[imx as int].d,
        ;
        assert(m@[imn as int] == norm_q(s)[imn as int]);
        assert(m@[imn as int].n == 0);
        assert(q_eq(m@[imn as int], q_int(0))) by (nonlinear_arith)
            requires
                m@[imn as int].n == 0,
        ;
        assert(attains(m@, q_int(1))) by {
            assert(0 <= (imx as int) && (imx as int) < 400 && q_eq(m@[imx as int], q_int(1)));
        }
        assert(attains(m@, q_int(0))) by {
            assert(0 <= (imn as int) && (imn as int) < 400 && q_eq(m@[imn as int], q_int(0)));
        }
        assert(m.wf());
        assert(forall|k2: int| 0 <= k2 < 400 ==> m@[k2] == norm_q(s)[k2]);
    }
    Ok(m)
}

/// The scaling constant `lambda = 1 / pair_mass(w)`.
///
/// Fails with `TooFewSequences` exactly when fewer than two weights
/// are supplied, and with `ZeroPairMass` when the total pairwise mass
/// is zero; on success the result is exactly the reciprocal of the
/// pairwise mass.
pub fn calc_lambda(weight_list: &Vec<Rat>) -> (r: Result<Rat, SpError>)
    requires
        weights_wf(weight_list@),
    ensures
        (r == Err::<Rat, SpError>(
            SpError::Arithmetic { kind: ArithmeticKind::TooFewSequences },
        )) <==> weight_list@.len() < 2,
        r == Err::<Rat, SpError>(SpError::Arithmetic { kind: ArithmeticKind::ZeroPairMass })
            ==> weight_list@.len() >= 2 && q_eq(pair_mass(weight_views(weight_list@)), q_int(0)),
        weight_list@.len() >= 2 && at_most_one_nonzero(weight_views(weight_list@)) ==> r
            == Err::<Rat, SpError>(SpError::Arithmetic { kind: ArithmeticKind::ZeroPairMass }),
        r matches Ok(l) ==> l.wf() && !q_eq(pair_mass(weight_views(weight_list@)), q_int(0))
            && q_eq(l@, q_inv(pair_mass(weight_views(weight_list@)))),
        r matches Err(e) ==> (e matches SpError::Arithmetic { .. }) || e == SpError::Overflow,
        ({
            let ws = weight_views(weight_list@);
            let n = weight_list@.len() as int;
            &&& ((r == Err::<Rat, SpError>(SpError::Overflow)) <==> (n >= 2
                && !at_most_one_nonzero(ws) && (lam_fold(ws, n) is None || (lam_fold(ws, n)
                matches Some(p) && p.1.n != 0 && p.1.n == i64::MIN as int))))
            &&& (r is Ok <==> (n >= 2 && !at_most_one_nonzero(ws) && (lam_fold(ws, n)
                matches Some(p) && p.1.n != 0 && p.1.n != i64::MIN as int)))
            &&& (r matches Ok(l) ==> (lam_fold(ws, n) matches Some(p) && l@ == q_inv(p.1)))
            &&& (r is Ok <==> lambda_ok(ws, n))
            &&& (r matches Ok(l) ==> l@ == lambda_value(ws, n))
        }),
{
    let n = weight_list.len();
    let ghost ws = weight_views(weight_list@);
    if n < 2 {
        return Err(SpError::Arithmetic { kind: ArithmeticKind::TooFewSequences });
    }
    // count the nonzero weights: zero pairwise mass is certain when
    // fewer than two remain
    let mut nonzero: usize = 0;
    let ghost mut first: int = 0;
    let ghost mut second: int = 0;
    let mut k: usize = 0;
    while k < n
        invariant
            n == weight_list@.len(),
            ws == weight_views(weight_list@),
            weights_wf(weight_list@),
            k <= n,
            nonzero <= 2,
            nonzero == 0 ==> forall|i: int| 0 <= i < k ==> (#[trigger] ws[i]).n == 0,
            nonzero >= 1 ==> 0 <= first < k && ws[first].n != 0,
            nonzero == 1 ==> forall|i: int|
                0 <= i < k && i != first ==> (#[trigger] ws[i]).n == 0,
            nonzero >= 2 ==> first < second < k && ws[second].n != 0,
        decreases n - k,
    {
        if !weight_list[k].is_zero() {
            if nonzero == 0 {
                proof {
                    first = k as int;
                }
                nonzero = 1;
            } else if nonzero == 1 {
                proof {
                    second = k as int;
                }
                nonzero = 2;
            }
        }
        k += 1;
    }
    if nonzero <= 1 {
        proof {
            assert forall|i: int, j: int| 0 <= i < j < ws.len() implies (#[trigger] ws[i]).n == 0
                || (#[trigger] ws[j]).n == 0 by {
                if nonzero == 1 && i == first {
                    assert(ws[j].n == 0);
                }
            }
            assert(at_most_one_nonzero(ws));
            lemma_amo_mass(ws, ws.len() as int);
            lemma_pair_mass_wf(ws, ws.len() as int);
            assert(q_eq(pair_mass(ws), q_int(0)));
        }
        return Err(SpError::Arithmetic { kind: ArithmeticKind::ZeroPairMass });
    }
    proof {
        assert(!at_most_one_nonzero(ws)) by {
            if at_most_one_nonzero(ws) {
                assert(ws[first].n == 0 || ws[second].n == 0);
            }
        }
    }
    // fold the pairwise mass: running prefix sum s, running mass acc
    let mut s = Rat::zero();
    let mut acc = Rat::zero();
    let mut j: usize = 0;
    while j < n
        invariant
            n == weight_list@.len(),
            2 <= n,
            ws == weight_views(weight_list@),
            weights_wf(weight_list@),
            !at_most_one_nonzero(ws),
            j <= n,
            s.wf(),
            acc.wf(),
            q_eq(s@, w_sum(ws, j as int)),
            q_eq(acc@, pair_mass_upto(ws, j as int)),
            lam_fold(ws, j as int) == Some((s@, acc@)),
        decreases n - j,
    {
        let w = weight_list[j];
        proof {
            assert(forall|i: int| 0 <= i < ws.len() ==> q_wf(#[trigger] ws[i]));
            lemma_w_sum_wf(ws, j as int);
            lemma_pair_mass_wf(ws, j as int);
        }
        let term = match s.checked_mul(&w) {
            Some(t) => t,
            None => {
                proof {
                    assert(lam_fold(ws, j as int + 1) is None);
                    lemma_lam_fold_none(ws, j as int + 1, n as int);
                }
                return Err(SpError::Overflow);
            },
        };
        proof {
            lemma_q_mul_congr(s@, w_sum(ws, j as int), w@, w@);
            lemma_q_ops_wf(w_sum(ws, j as int), w@);
            lemma_q_ops_wf(s@, w@);
        }
        let acc2 = match acc.checked_add(&term) {
            Some(t) => t,
            None => {
                proof {
                    assert(lam_fold(ws, j as int + 1) is None);
                    lemma_lam_fold_none(ws, j as int + 1, n as int);
                }
                return Err(SpError::Overflow);
            },
        };
        let s2 = match s.checked_add(&w) {
            Some(t) => t,
            None => {
                proof {
                    assert(lam_fold(ws, j as int + 1) is None);
                    lemma_lam_fold_none(ws, j as int + 1, n as int);
                }
                return Err(SpError::Overflow);
            },
        };
        proof {
            lemma_q_ops_wf(w_sum(ws, j as int), ws[j as int]);
            lemma_q_ops_wf(pair_mass_upto(ws, j as int), q_mul(w_sum(ws, j as int), ws[j as int]));
            lemma_q_ops_wf(acc@, term@);
            lemma_q_ops_wf(s@, w@);
            lemma_q_eq_trans(term@, q_mul(s@, w@), q_mul(w_sum(ws, j as int), ws[j as int]));
            lemma_q_add_congr(
                acc@,
                pair_mass_upto(ws, j as int),
                term@,
                q_mul(w_sum(ws, j as int), ws[j as int]),
            );
            lemma_q_eq_trans(
                acc2@,
                q_add(acc@, term@),
                q_add(
                    pair_mass_upto(ws, j as int),
                    q_mul(w_sum(ws, j as int), ws[j as int]),
                ),
            );
            lemma_q_add_congr(s@, w_sum(ws, j as int), w@, ws[j as int]);
            lemma_q_eq_trans(s2@, q_add(s@, w@), q_add(w_sum(ws, j as int), ws[j as int]));
            assert(lam_fold(ws, j as int + 1) == Some((s2@, acc2@)));
        }
        acc = acc2;
        s = s2;
        j += 1;
    }
    let ghost mass = pair_mass(ws);
    proof {
        assert(forall|i: int| 0 <= i < ws.len() ==> q_wf(#[trigger] ws[i]));
        lemma_pair_mass_wf(ws, ws.len() as int);
    }
    if acc.is_zero() {
        proof {
            assert(q_eq(mass, q_int(0))) by (nonlinear_arith)
                requires
                    q_eq(acc@, mass),
                    acc@.n == 0,
                    q_wf(acc@),
                    q_wf(mass),
            ;
        }
        return Err(SpError::Arithmetic { kind: ArithmeticKind::ZeroPairMass });
    }
    proof {
        assert(mass.n != 0 && !q_eq(mass, q_int(0))) by (nonlinear_arith)
            requires
                q_eq(acc@, mass),
                acc@.n != 0,
                q_wf(acc@),
                q_wf(mass),
        ;
    }
    match acc.invert() {
        Some(l) => {
            proof {
                lemma_q_inv_congr(acc@, mass);
                lemma_q_eq_trans(l@, q_inv(acc@), q_inv(mass));
            }
            Ok(l)
        },
        None => Err(SpError::Overflow),
    }
}

/// Reciprocals of equal nonzero rationals are equal.
proof fn lemma_q_inv_congr(a: Q, b: Q) by (nonlinear_arith)
    requires
        q_wf(a),
        q_wf(b),
        q_eq(a, b),
        a.n != 0,
        b.n != 0,
    ensures
        q_wf(q_inv(a)),
        q_wf(q_inv(b)),
        q_eq(q_inv(a), q_inv(b)),
{
}

/// Raw (unscaled) Sum-of-Pairs value of one column.
///
/// On success the result is exactly the sum over all unordered
/// position pairs of the column of `w_i * w_j * M[a_i, a_j]`, a pair
/// contributing zero when either position holds a gap.
pub fn calc_sp(site: &String, weight_list: &Vec<Rat>, m: &NormMatrix) -> (r: Result<
    Rat,
    SpError,
>)
    requires
        m.wf(),
        valid_site(site@),
        site@.len() == weight_list@.len(),
        weights_wf(weight_list@),
    ensures
        r matches Ok(s) ==> s.wf() && q_eq(
            s@,
            site_raw(site@, weight_views(weight_list@), m@),
        ),
        r matches Err(e) ==> e == SpError::Overflow,
        r is Ok <==> sp_result(site@, weight_views(weight_list@), m@) is Some,
        r matches Ok(s) ==> (sp_result(site@, weight_views(weight_list@), m@) matches Some(v)
            && s@ == v),
{
    let n = weight_list.len();
    let ghost col = site@;
    let ghost ws = weight_views(weight_list@);
    let mut acc = Rat::zero();
    if n == 0 {
        return Ok(acc);
    }
    let mut j: usize = 1;
    proof {
        assert(site_score_upto(col, ws, m@, 0) == q_int(0));
        assert(site_row(col, ws, m@, 0, 0) == q_int(0));
        assert(q_eq(acc@, site_score_upto(col, ws, m@, 1)));
    }
    while j < n
        invariant
            n == weight_list@.len(),
            col == site@,
            ws == weight_views(weight_list@),
            m.wf(),
            valid_site(site@),
            site@.len() == weight_list@.len(),
            weights_wf(weight_list@),
            1 <= j <= n,
            acc.wf(),
            q_eq(acc@, site_score_upto(col, ws, m@, j as int)),
            sp_fold(col, ws, m@, j as int) == Some(acc@),
        decreases n - j,
    {
        let cj = site.as_str().get_char(j);
        let mut row = Rat::zero();
        let mut i: usize = 0;
        while i < j
            invariant
                n == weight_list@.len(),
                col == site@,
                ws == weight_views(weight_list@),
                m.wf(),
                valid_site(site@),
                site@.len() == weight_list@.len(),
                weights_wf(weight_list@),
                1 <= j < n,
                i <= j,
                cj == col[j as int],
                row.wf(),
                q_eq(row@, site_row(col, ws, m@, j as int, i as int)),
                sp_fold(col, ws, m@, j as int) == Some(acc@),
                sp_row_fold(col, ws, m@, j as int, i as int) == Some(row@),
            decreases j - i,
        {
            let ci = site.as_str().get_char(i);
            if ci == '-' || cj == '-' {
                proof {
                    assert(sp_row_fold(col, ws, m@, j as int, i as int + 1) == Some(row@));
                    assert(pair_term(col, ws, m@, i as int, j as int) == q_int(0));
                    assert(q_add(site_row(col, ws, m@, j as int, i as int), q_int(0)).n
                        == site_row(col, ws, m@, j as int, i as int).n);
                    assert(q_add(site_row(col, ws, m@, j as int, i as int), q_int(0)).d
                        == site_row(col, ws, m@, j as int, i as int).d);
                }
            } else {
                let ai = match index_of(ci) {
                    Some(x) => x,
                    None => {
                        proof {
                            assert(false);
                        }
                        vstd::pervasive::unreached()
                    },
                };
                let aj = match index_of(cj) {
                    Some(x) => x,
                    None => {
                        proof {
                            assert(false);
                        }
                        vstd::pervasive::unreached()
                    },
                };
                let wi = weight_list[i];
                let wj = weight_list[j];
                let t1 = match wi.checked_mul(&wj) {
                    Some(t) => t,
                    None => {
                        proof {
                            lemma_sp_overflow(col, ws, m@, j as int, i as int + 1, n as int);
                        }
                        return Err(SpError::Overflow);
                    },
                };
                let e = m.get(ai, aj);
                let term = match t1.checked_mul(&e) {
                    Some(t) => t,
                    None => {
                        proof {
                            lemma_sp_overflow(col, ws, m@, j as int, i as int + 1, n as int);
                        }
                        return Err(SpError::Overflow);
                    },
                };
                let row2 = match row.checked_add(&term) {
                    Some(t) => t,
                    None => {
                        proof {
                            lemma_sp_overflow(col, ws, m@, j as int, i as int + 1, n as int);
                        }
                        return Err(SpError::Overflow);
                    },
                };
                proof {
                    let ghost tspec = pair_term(col, ws, m@, i as int, j as int);
                    assert(forall|x: int| 0 <= x < ws.len() ==> q_wf(#[trigger] ws[x]));
                    lemma_site_row_wf(col, ws, m@, j as int, i as int);
                    assert(tspec == q_mul(q_mul(ws[i as int], ws[j as int]), e@));
                    lemma_q_ops_wf(ws[i as int], ws[j as int]);
                    lemma_q_mul_congr(t1@, q_mul(ws[i as int], ws[j as int]), e@, e@);
                    lemma_q_ops_wf(q_mul(ws[i as int], ws[j as int]), e@);
                    lemma_q_ops_wf(t1@, e@);
                    lemma_q_eq_trans(term@, q_mul(t1@, e@), tspec);
                    lemma_q_add_congr(
                        row@,
                        site_row(col, ws, m@, j as int, i as int),
                        term@,
                        tspec,
                    );
                    lemma_q_ops_wf(site_row(col, ws, m@, j as int, i as int), tspec);
                    lemma_q_ops_wf(row@, term@);
                    lemma_q_eq_trans(
                        row2@,
                        q_add(row@, term@),
                        q_add(site_row(col, ws, m@, j as int, i as int), tspec),
                    );
                    assert(sp_row_fold(col, ws, m@, j as int, i as int + 1) == Some(row2@));
                }
                row = row2;
            }
            i += 1;
        }
        let acc2 = match acc.checked_add(&row) {
            Some(t) => t,
            None => {
                proof {
                    assert(sp_fold(col, ws, m@, j as int + 1) is None);
                    lemma_sp_fold_none(col, ws, m@, j as int + 1, n as int);
                }
                return Err(SpError::Overflow);
            },
        };
        proof {
            assert(forall|x: int| 0 <= x < ws.len() ==> q_wf(#[trigger] ws[x]));
            lemma_site_score_wf(col, ws, m@, j as int);
            lemma_site_row_wf(col, ws, m@, j as int, j as int);
            lemma_q_add_congr(
                acc@,
                site_score_upto(col, ws, m@, j as int),
                row@,
                site_row(col, ws, m@, j as int, j as int),
            );
            lemma_q_ops_wf(
                site_score_upto(col, ws, m@, j as int),
                site_row(col, ws, m@, j as int, j as int),
            );
            lemma_q_ops_wf(acc@, row@);
            lemma_q_eq_trans(
                acc2@,
                q_add(acc@, row@),
                q_add(
                    site_score_upto(col, ws, m@, j as int),
                    site_row(col, ws, m@, j as int, j as int),
                ),
            );
            assert(sp_fold(col, ws, m@, j as int + 1) == Some(acc2@));
        }
        acc = acc2;
        j += 1;
    }
    Ok(acc)
}

/// Every column is made of residue letters and gaps.
pub open spec fn valid_sites(sites: Seq<String>) -> bool {
    forall|k: int| 0 <= k < sites.len() ==> valid_site((#[trigger] sites[k])@)
}

/// All columns have one character per weight.
pub open spec fn sites_match(sites: Seq<String>, n: int) -> bool {
    forall|k: int| 0 <= k < sites.len() ==> (#[trigger] sites[k])@.len() == n
}

/// Conservation scores of all columns against an explicit raw table.
///
/// Checks that every column has one character per weight (`Input`
/// error exactly otherwise), rescales the table, derives the scaling
/// constant from the weights, and scores every column in input
/// order.  Success is owed exactly when the table rescales
/// ([`norm_ok`]), the scaling constant exists ([`lambda_ok`]) and
/// every column's fold stays in 64-bit range; entry `k` is then
/// exactly the canonical `lambda * site_raw(column k)`.
pub fn score_with_matrix(site_list: &Vec<String>, weight_list: &Vec<Rat>, raw: &Vec<i64>) -> (r:
    Result<Vec<Rat>, SpError>)
    requires
        valid_sites(site_list@),
        weights_wf(weight_list@),
    ensures
        r matches Err(e) && (e matches SpError::Integrity { .. }) ==> !(raw@.len() == 400
            && mat_max(raw@) != mat_min(raw@) && is_symmetric(raw@)),
        (r == Err::<Vec<Rat>, SpError>(
            SpError::Arithmetic { kind: ArithmeticKind::TooFewSequences },
        )) ==> weight_list@.len() < 2,
        r == Err::<Vec<Rat>, SpError>(SpError::Arithmetic { kind: ArithmeticKind::ZeroPairMass })
            ==> q_eq(pair_mass(weight_views(weight_list@)), q_int(0)),
        (r matches Err(e) && (e matches SpError::Input { .. })) <==> !sites_match(
            site_list@,
            weight_list@.len() as int,
        ),
        r matches Err(e) ==> !(e matches SpError::Configuration { .. }),
        r matches Ok(scores) ==> {
            &&& raw@.len() == 400
            &&& mat_max(raw@) != mat_min(raw@)
            &&& is_symmetric(raw@)
            &&& weight_list@.len() >= 2
            &&& !q_eq(pair_mass(weight_views(weight_list@)), q_int(0))
            &&& sites_match(site_list@, weight_list@.len() as int)
            &&& scores@.len() == site_list@.len()
            &&& forall|k: int|
                0 <= k < scores@.len() ==> (#[trigger] scores@[k]).wf() && q_eq(
                    scores@[k]@,
                    q_mul(
                        q_inv(pair_mass(weight_views(weight_list@))),
                        site_raw((site_list@[k])@, weight_views(weight_list@), norm_q(raw@)),
                    ),
                )
        },
        ({
            let ws = weight_views(weight_list@);
            let n = weight_list@.len() as int;
            &&& (r is Ok <==> (sites_match(site_list@, n) && norm_ok(raw@) && lambda_ok(ws, n) && (
            forall|k: int|
                0 <= k < site_list@.len() ==> (#[trigger] score_result(
                    (site_list@[k])@,
                    ws,
                    norm_q(raw@),
                    lambda_value(ws, n),
                )) is Some)))
            &&& (r matches Ok(scores) ==> forall|k: int|
                0 <= k < scores@.len() ==> (#[trigger] scores@[k])@ == score_result(
                    (site_list@[k])@,
                    ws,
                    norm_q(raw@),
                    lambda_value(ws, n),
                ).unwrap())
        }),
{
    let n = weight_list.len();
    let ghost ws = weight_views(weight_list@);
    // every column must hold one character per weight
    let mut k: usize = 0;
    while k < site_list.len()
        invariant
            n == weight_list@.len(),
            k <= site_list@.len(),
            forall|kk: int| 0 <= kk < k ==> (#[trigger] site_list@[kk])@.len() == n,
        decreases site_list@.len() - k,
    {
        let l = site_list[k].as_str().unicode_len();
        if l != n {
            return Err(SpError::Input { expected: n, found: l });
        }
        k += 1;
    }
    let nm = match normalize_matrix(raw) {
        Ok(m) => m,
        Err(e) => {
            return Err(e);
        },
    };
    let lambda = match calc_lambda(weight_list) {
        Ok(l) => l,
        Err(e) => {
            return Err(e);
        },
    };
    let ghost mass = pair_mass(ws);
    let ghost lamv = lambda_value(ws, n as int);
    let mut scores: Vec<Rat> = Vec::new();
    let mut k: usize = 0;
    while k < site_list.len()
        invariant
            valid_sites(site_list@),
            weights_wf(weight_list@),
            ws == weight_views(weight_list@),
            mass == pair_mass(ws),
            n == weight_list@.len(),
            nm.wf(),
            raw@.len() == 400,
            forall|kk: int| 0 <= kk < 400 ==> nm@[kk] == norm_q(raw@)[kk],
            lambda.wf(),
            lambda@ == lamv,
            lamv == lambda_value(ws, n as int),
            q_eq(lambda@, q_inv(mass)),
            !q_eq(mass, q_int(0)),
            mat_max(raw@) != mat_min(raw@),
            sites_match(site_list@, n as int),
            k <= site_list@.len(),
            scores@.len() == k,
            forall|kk: int|
                0 <= kk < k ==> (#[trigger] score_result(
                    (site_list@[kk])@,
                    ws,
                    norm_q(raw@),
                    lamv,
                )) is Some,
            forall|kk: int|
                0 <= kk < k ==> (#[trigger] scores@[kk])@ == score_result(
                    (site_list@[kk])@,
                    ws,
                    norm_q(raw@),
                    lamv,
                ).unwrap(),
            forall|kk: int|
                0 <= kk < k ==> (#[trigger] scores@[kk]).wf() && q_eq(
                    scores@[kk]@,
                    q_mul(q_inv(mass), site_raw((site_list@[kk])@, ws, norm_q(raw@))),
                ),
        decreases site_list@.len() - k,
    {
        let site = &site_list[k];
        let sp = match calc_sp(site, weight_list, &nm) {
            Ok(s) => s,
            Err(e) => {
                proof {
                    assert(nm@ =~= norm_q(raw@));
                    assert(score_result(site@, ws, norm_q(raw@), lamv) is None);
                }
                return Err(e);
            },
        };
        let sc = match lambda.checked_mul(&sp) {
            Some(s) => s,
            None => {
                proof {
                    assert(nm@ =~= norm_q(raw@));
                    assert(sp_result(site@, ws, norm_q(raw@)) == Some(sp@));
                    assert(score_result(site@, ws, norm_q(raw@), lamv) is None);
                }
                return Err(SpError::Overflow);
            },
        };
        proof {
            assert(nm@ =~= norm_q(raw@));
            assert(sp_result(site@, ws, norm_q(raw@)) == Some(sp@));
            assert(score_result(site@, ws, norm_q(raw@), lamv) == Some(sc@));
            assert(forall|x: int| 0 <= x < ws.len() ==> q_wf(#[trigger] ws[x]));
            lemma_pair_mass_wf(ws, ws.len() as int);
            assert(mass.n * 1 != 0 * mass.d);
            assert(mass.n != 0) by (nonlinear_arith)
                requires
                    mass.n * 1 != 0 * mass.d,
            ;
            assert(q_wf(q_inv(mass))) by (nonlinear_arith)
                requires
                    q_wf(mass),
                    mass.n != 0,
            ;
            lemma_max_ge_min(raw@, 400);
            assert(matrix_q_wf(norm_q(raw@)));
            lemma_site_score_wf(site@, ws, norm_q(raw@), site@.len() as int);
            lemma_q_mul_congr(lambda@, q_inv(mass), sp@, site_raw(site@, ws, norm_q(raw@)));
            lemma_q_ops_wf(q_inv(mass), site_raw(site@, ws, norm_q(raw@)));
            lemma_q_ops_wf(lambda@, sp@);
            lemma_q_eq_trans(
                sc@,
                q_mul(lambda@, sp@),
                q_mul(q_inv(mass), site_raw(site@, ws, norm_q(raw@))),
            );
        }
        scores.push(sc);
        k += 1;
    }
    Ok(scores)
}

/// Conservation scores of all columns for a named substitution table.
///
/// Resolves the matrix identifier (`Configuration` error exactly when
/// it is not in the recognized set, carrying that name) and then
/// scores every column as [`score_with_matrix`] does against that
/// identifier's stated table ([`crate::matrices::table_spec`]):
/// success is owed exactly when that table rescales, the scaling
/// constant exists, and every column's fold stays in 64-bit range,
/// and entry `k` is then exactly the canonical
/// `lambda * site_raw(column k)` over that table.
pub fn sum_of_pairs(site_list: &Vec<String>, weight_list: &Vec<Rat>, arg_m: &String) -> (r:
    Result<Vec<Rat>, SpError>)
    requires
        valid_sites(site_list@),
        weights_wf(weight_list@),
    ensures
        (r matches Err(e) && (e matches SpError::Configuration { .. })) <==> !recognized_matrix(
            arg_m@,
        ),
        r matches Err(SpError::Configuration { identifier }) ==> identifier@ == arg_m@,
        r matches Ok(scores) ==> {
            &&& recognized_matrix(arg_m@)
            &&& weight_list@.len() >= 2
            &&& !q_eq(pair_mass(weight_views(weight_list@)), q_int(0))
            &&& sites_match(site_list@, weight_list@.len() as int)
            &&& scores@.len() == site_list@.len()
            &&& forall|k: int| 0 <= k < scores@.len() ==> (#[trigger] scores@[k]).wf()
        },
        (r == Err::<Vec<Rat>, SpError>(
            SpError::Arithmetic { kind: ArithmeticKind::TooFewSequences },
        )) ==> weight_list@.len() < 2,
        (r matches Err(e) && (e matches SpError::Input { .. })) <==> (recognized_matrix(arg_m@)
            && !sites_match(site_list@, weight_list@.len() as int)),
        ({
            let ws = weight_views(weight_list@);
            let n = weight_list@.len() as int;
            let tbl = table_spec(matrix_id_spec(arg_m@).unwrap());
            &&& (r is Ok <==> (recognized_matrix(arg_m@) && sites_match(site_list@, n) && norm_ok(
                tbl,
            ) && lambda_ok(ws, n) && (forall|k: int|
                0 <= k < site_list@.len() ==> (#[trigger] score_result(
                    (site_list@[k])@,
                    ws,
                    norm_q(tbl),
                    lambda_value(ws, n),
                )) is Some)))
            &&& (r matches Ok(scores) ==> forall|k: int|
                0 <= k < scores@.len() ==> (#[trigger] scores@[k])@ == score_result(
                    (site_list@[k])@,
                    ws,
                    norm_q(tbl),
                    lambda_value(ws, n),
                ).unwrap())
            &&& (r matches Ok(scores) ==> forall|k: int|
                0 <= k < scores@.len() ==> q_eq(
                    (#[trigger] scores@[k])@,
                    q_mul(
                        q_inv(pair_mass(ws)),
                        site_raw((site_list@[k])@, ws, norm_q(tbl)),
                    ),
                ))
        }),
{
    let raw = match define_matrix(arg_m) {
        Ok(t) => t,
        Err(e) => {
            return Err(e);
        },
    };
    match score_with_matrix(site_list, weight_list, &raw) {
        Ok(s) => Ok(s),
        Err(e) => Err(e),
    }
}


/// Multiplication by a common factor distributes over a sum of
/// rationals.
proof fn lemma_q_distrib(a: Q, b: Q, c: Q)
    requires
        q_wf(a),
        q_wf(b),
        q_wf(c),
    ensures
        q_eq(q_add(q_mul(a, c), q_mul(b, c)), q_mul(q_add(a, b), c)),
{
    lemma_distrib_terms(a.n, a.d, b.n, b.d, c.n, c.d);
}

/// Term-level form of [`lemma_q_distrib`].
proof fn lemma_distrib_terms(an: int, ad: int, bn: int, bd: int, cn: int, cd: int)
    ensures
        ((an * cn) * (bd * cd) + (bn * cn) * (ad * cd)) * ((ad * bd) * cd) == ((an * bd + bn * ad)
            * cn) * ((ad * cd) * (bd * cd)),
{
    let s = an * bd + bn * ad;
    let r = ad * bd;
    assert((an * cn) * (bd * cd) == (an * bd) * (cn * cd)) by (nonlinear_arith);
    assert((bn * cn) * (ad * cd) == (bn * ad) * (cn * cd)) by (nonlinear_arith);
    assert((an * bd) * (cn * cd) + (bn * ad) * (cn * cd) == s * (cn * cd)) by (nonlinear_arith)
        requires
            s == an * bd + bn * ad,
    ;
    assert((ad * cd) * (bd * cd) == r * (cd * cd)) by (nonlinear_arith)
        requires
            r == ad * bd,
    ;
    assert(((an * cn) * (bd * cd) + (bn * cn) * (ad * cd)) * ((ad * bd) * cd) == (s * (cn * cd))
        * (r * cd)) by (nonlinear_arith)
        requires
            (an * cn) * (bd * cd) + (bn * cn) * (ad * cd) == s * (cn * cd),
            r == ad * bd,
    ;
    assert(((an * bd + bn * ad) * cn) * ((ad * cd) * (bd * cd)) == (s * cn) * (r * (cd * cd)))
        by (nonlinear_arith)
        requires
            (ad * cd) * (bd * cd) == r * (cd * cd),
            s == an * bd + bn * ad,
    ;
    assert((s * (cn * cd)) * (r * cd) == (s * cn) * (r * (cd * cd))) by (nonlinear_arith);
}

/// The reciprocal cancels: `(1 / p) * (p * v) == v` for nonzero `p`.
proof fn lemma_q_inv_cancel(p: Q, v: Q) by (nonlinear_arith)
    requires
        q_wf(p),
        q_wf(v),
        p.n != 0,
    ensures
        q_eq(q_mul(q_inv(p), q_mul(p, v)), v),
{
}

proof fn lemma_gap_row(col: Seq<char>, ws: Seq<Q>, m: Seq<Q>, j: int, k: int)
    requires
        0 <= k <= j < col.len(),
        forall|i2: int, j2: int|
            0 <= i2 < j2 < col.len() ==> is_gap(#[trigger] col[i2]) || is_gap(#[trigger] col[j2]),
    ensures
        site_row(col, ws, m, j, k).n == 0,
    decreases k,
{
    if k > 0 {
        lemma_gap_row(col, ws, m, j, k - 1);
        assert(is_gap(col[k - 1]) || is_gap(col[j]));
        assert(pair_term(col, ws, m, k - 1, j) == q_int(0));
        let r0 = site_row(col, ws, m, j, k - 1);
        assert(site_row(col, ws, m, j, k).n == 0) by (nonlinear_arith)
            requires
                site_row(col, ws, m, j, k).n == r0.n * 1 + 0 * r0.d,
                r0.n == 0,
        ;
    }
}

proof fn lemma_gap_score(col: Seq<char>, ws: Seq<Q>, m: Seq<Q>, k: int)
    requires
        0 <= k <= col.len(),
        forall|i2: int, j2: int|
            0 <= i2 < j2 < col.len() ==> is_gap(#[trigger] col[i2]) || is_gap(#[trigger] col[j2]),
    ensures
        site_score_upto(col, ws, m, k).n == 0,
    decreases k,
{
    if k > 0 {
        lemma_gap_score(col, ws, m, k - 1);
        lemma_gap_row(col, ws, m, k - 1, k - 1);
        let a = site_score_upto(col, ws, m, k - 1);
        let b = site_row(col, ws, m, k - 1, k - 1);
        assert(site_score_upto(col, ws, m, k).n == 0) by (nonlinear_arith)
            requires
                site_score_upto(col, ws, m, k).n == a.n * b.d + b.n * a.d,
                a.n == 0,
                b.n == 0,
        ;
    }
}

/// Law: a column in which every pair of positions touches a gap has
/// raw Sum-of-Pairs value zero, and therefore scores exactly zero
/// after scaling by any lambda, whatever the weights and the matrix.
pub proof fn lemma_gap_dominance(col: Seq<char>, ws: Seq<Q>, m: Seq<Q>, lam: Q)
    requires
        forall|i2: int, j2: int|
            0 <= i2 < j2 < col.len() ==> is_gap(#[trigger] col[i2]) || is_gap(#[trigger] col[j2]),
        q_wf(lam),
    ensures
        site_raw(col, ws, m).n == 0,
        q_eq(q_mul(lam, site_raw(col, ws, m)), q_int(0)),
{
    lemma_gap_score(col, ws, m, col.len() as int);
    let s = site_raw(col, ws, m);
    assert(q_eq(q_mul(lam, s), q_int(0))) by (nonlinear_arith)
        requires
            s.n == 0,
            q_mul(lam, s).n == lam.n * s.n,
    ;
}

proof fn lemma_same_row(col: Seq<char>, ws: Seq<Q>, m: Seq<Q>, c: char, j: int, k: int)
    requires
        col.len() == ws.len(),
        0 <= k <= j < col.len(),
        !is_gap(c),
        is_residue(c),
        forall|i2: int| 0 <= i2 < col.len() ==> #[trigger] col[i2] == c,
        ws_q_wf(ws),
        matrix_q_wf(m),
    ensures
        q_eq(
            site_row(col, ws, m, j, k),
            q_mul(q_mul(w_sum(ws, k), ws[j]), m[residue_index(c) * 20 + residue_index(c)]),
        ),
    decreases k,
{
    let v = m[residue_index(c) * 20 + residue_index(c)];
    assert(0 <= residue_index(c) * 20 + residue_index(c) < 400);
    if k == 0 {
        let rhs = q_mul(q_mul(w_sum(ws, 0), ws[j]), v);
        assert(q_eq(q_int(0), rhs)) by (nonlinear_arith)
            requires
                rhs.n == (0 * ws[j].n) * v.n,
        ;
    } else {
        lemma_same_row(col, ws, m, c, j, k - 1);
        assert(forall|i2: int|
            0 <= i2 < col.len() ==> !is_gap(#[trigger] col[i2]) && is_residue(col[i2]));
        lemma_site_row_wf_any(col, ws, m, j, k - 1);
        lemma_w_sum_wf(ws, k - 1);
        lemma_w_sum_wf(ws, k);
        lemma_q_ops_wf(w_sum(ws, k - 1), ws[j]);
        lemma_q_ops_wf(ws[k - 1], ws[j]);
        lemma_q_ops_wf(q_mul(w_sum(ws, k - 1), ws[j]), v);
        lemma_q_ops_wf(q_mul(ws[k - 1], ws[j]), v);
        let a = q_mul(w_sum(ws, k - 1), ws[j]);
        let b = q_mul(ws[k - 1], ws[j]);
        // the new pair term is exactly (w_{k-1} * w_j) * v
        assert(pair_term(col, ws, m, k - 1, j) == q_mul(b, v));
        // sum of the two scaled terms equals the scaled sum
        lemma_q_distrib(a, b, v);
        lemma_q_ops_wf(a, b);
        lemma_q_ops_wf(q_add(a, b), v);
        lemma_q_add_congr(site_row(col, ws, m, j, k - 1), q_mul(a, v), q_mul(b, v), q_mul(b, v));
        lemma_q_ops_wf(q_mul(a, v), q_mul(b, v));
        lemma_q_ops_wf(site_row(col, ws, m, j, k - 1), pair_term(col, ws, m, k - 1, j));
        lemma_q_eq_trans(
            site_row(col, ws, m, j, k),
            q_add(q_mul(a, v), q_mul(b, v)),
            q_mul(q_add(a, b), v),
        );
        // (w_sum(k-1) * w_j) + (w_{k-1} * w_j) equals w_sum(k) * w_j
        lemma_q_distrib(w_sum(ws, k - 1), ws[k - 1], ws[j]);
        lemma_q_ops_wf(w_sum(ws, k), ws[j]);
        lemma_q_mul_congr(q_add(a, b), q_mul(w_sum(ws, k), ws[j]), v, v);
        lemma_q_ops_wf(q_mul(w_sum(ws, k), ws[j]), v);
        lemma_q_eq_trans(
            site_row(col, ws, m, j, k),
            q_mul(q_add(a, b), v),
            q_mul(q_mul(w_sum(ws, k), ws[j]), v),
        );
    }
}

/// Well-formedness of a partial row without assuming letter validity
/// of the column, used by the law proofs.
proof fn lemma_site_row_wf_any(col: Seq<char>, ws: Seq<Q>, m: Seq<Q>, j: int, k: int)
    requires
        col.len() == ws.len(),
        0 <= j < col.len(),
        0 <= k <= col.len(),
        forall|i2: int| 0 <= i2 < col.len() ==> !is_gap(#[trigger] col[i2]) && is_residue(col[i2]),
        matrix_q_wf(m),
        ws_q_wf(ws),
    ensures
        q_wf(site_row(col, ws, m, j, k)),
    decreases k,
{
    if k > 0 {
        lemma_site_row_wf_any(col, ws, m, j, k - 1);
        lemma_q_ops_wf(ws[k - 1], ws[j]);
        lemma_q_ops_wf(
            q_mul(ws[k - 1], ws[j]),
            m[residue_index(col[k - 1]) * 20 + residue_index(col[j])],
        );
        lemma_q_ops_wf(site_row(col, ws, m, j, k - 1), pair_term(col, ws, m, k - 1, j));
    }
}

proof fn lemma_same_score(col: Seq<char>, ws: Seq<Q>, m: Seq<Q>, c: char, k: int)
    requires
        col.len() == ws.len(),
        0 <= k <= col.len(),
        !is_gap(c),
        is_residue(c),
        forall|i2: int| 0 <= i2 < col.len() ==> #[trigger] col[i2] == c,
        ws_q_wf(ws),
        matrix_q_wf(m),
    ensures
        q_eq(
            site_score_upto(col, ws, m, k),
            q_mul(pair_mass_upto(ws, k), m[residue_index(c) * 20 + residue_index(c)]),
        ),
    decreases k,
{
    let v = m[residue_index(c) * 20 + residue_index(c)];
    assert(0 <= residue_index(c) * 20 + residue_index(c) < 400);
    if k == 0 {
        let rhs = q_mul(pair_mass_upto(ws, 0), v);
        assert(q_eq(q_int(0), rhs)) by (nonlinear_arith)
            requires
                rhs.n == 0 * v.n,
        ;
    } else {
        lemma_same_score(col, ws, m, c, k - 1);
        lemma_same_row(col, ws, m, c, k - 1, k - 1);
        assert(forall|i2: int|
            0 <= i2 < col.len() ==> !is_gap(#[trigger] col[i2]) && is_residue(col[i2]));
        lemma_site_row_wf_any(col, ws, m, k - 1, k - 1);
        lemma_site_score_wf_same(col, ws, m, c, k - 1);
        lemma_w_sum_wf(ws, k - 1);
        lemma_pair_mass_wf(ws, k - 1);
        lemma_pair_mass_wf(ws, k);
        let a = pair_mass_upto(ws, k - 1);
        let b = q_mul(w_sum(ws, k - 1), ws[k - 1]);
        lemma_q_ops_wf(w_sum(ws, k - 1), ws[k - 1]);
        lemma_q_ops_wf(a, v);
        lemma_q_ops_wf(b, v);
        lemma_q_distrib(a, b, v);
        lemma_q_ops_wf(a, b);
        lemma_q_ops_wf(q_add(a, b), v);
        lemma_q_add_congr(
            site_score_upto(col, ws, m, k - 1),
            q_mul(a, v),
            site_row(col, ws, m, k - 1, k - 1),
            q_mul(b, v),
        );
        lemma_q_ops_wf(q_mul(a, v), q_mul(b, v));
        lemma_q_ops_wf(site_score_upto(col, ws, m, k - 1), site_row(col, ws, m, k - 1, k - 1));
        lemma_q_eq_trans(
            site_score_upto(col, ws, m, k),
            q_add(q_mul(a, v), q_mul(b, v)),
            q_mul(q_add(a, b), v),
        );
    }
}

/// Well-formedness of a partial score for an all-residue column.
proof fn lemma_site_score_wf_same(col: Seq<char>, ws: Seq<Q>, m: Seq<Q>, c: char, k: int)
    requires
        col.len() == ws.len(),
        0 <= k <= col.len(),
        !is_gap(c),
        is_residue(c),
        forall|i2: int| 0 <= i2 < col.len() ==> #[trigger] col[i2] == c,
        ws_q_wf(ws),
        matrix_q_wf(m),
    ensures
        q_wf(site_score_upto(col, ws, m, k)),
    decreases k,
{
    if k > 0 {
        lemma_site_score_wf_same(col, ws, m, c, k - 1);
        assert(forall|i2: int|
            0 <= i2 < col.len() ==> !is_gap(#[trigger] col[i2]) && is_residue(col[i2]));
        lemma_site_row_wf_any(col, ws, m, k - 1, k - 1);
        lemma_q_ops_wf(site_score_upto(col, ws, m, k - 1), site_row(col, ws, m, k - 1, k - 1));
    }
}

/// Law: for a column whose entries (two or more) all hold the same
/// residue letter `c`, and any weight vector whose pairwise mass is
/// nonzero, the lambda-scaled score is exactly the rescaled matrix's
/// diagonal entry for `c` - lambda cancels the pairwise weight mass.
pub proof fn lemma_identical_residue(col: Seq<char>, ws: Seq<Q>, m: Seq<Q>, c: char)
    requires
        col.len() == ws.len(),
        2 <= col.len(),
        !is_gap(c),
        is_residue(c),
        forall|i2: int| 0 <= i2 < col.len() ==> #[trigger] col[i2] == c,
        ws_q_wf(ws),
        matrix_q_wf(m),
        !q_eq(pair_mass(ws), q_int(0)),
    ensures
        q_eq(
            q_mul(q_inv(pair_mass(ws)), site_raw(col, ws, m)),
            m[residue_index(c) * 20 + residue_index(c)],
        ),
{
    let v = m[residue_index(c) * 20 + residue_index(c)];
    assert(0 <= residue_index(c) * 20 + residue_index(c) < 400);
    let p = pair_mass(ws);
    lemma_same_score(col, ws, m, c, col.len() as int);
    lemma_pair_mass_wf(ws, ws.len() as int);
    assert(p.n * 1 != 0 * p.d);
    assert(p.n != 0) by (nonlinear_arith)
        requires
            p.n * 1 != 0 * p.d,
    ;
    assert(q_wf(q_inv(p))) by (nonlinear_arith)
        requires
            q_wf(p),
            p.n != 0,
    ;
    lemma_q_ops_wf(p, v);
    lemma_site_score_wf_same(col, ws, m, c, col.len() as int);
    lemma_q_mul_congr(q_inv(p), q_inv(p), site_raw(col, ws, m), q_mul(p, v));
    lemma_q_inv_cancel(p, v);
    lemma_q_ops_wf(q_inv(p), site_raw(col, ws, m));
    lemma_q_ops_wf(q_inv(p), q_mul(p, v));
    lemma_q_eq_trans(
        q_mul(q_inv(p), site_raw(col, ws, m)),
        q_mul(q_inv(p), q_mul(p, v)),
        v,
    );
}


/// All weight values are non-negative.
pub open spec fn ws_nonneg(ws: Seq<Q>) -> bool {
    forall|i: int| 0 <= i < ws.len() ==> (#[trigger] ws[i]).n >= 0
}

proof fn lemma_w_sum_nonneg(ws: Seq<Q>, k: int)
    requires
        0 <= k <= ws.len(),
        ws_q_wf(ws),
        ws_nonneg(ws),
    ensures
        w_sum(ws, k).n >= 0,
    decreases k,
{
    if k > 0 {
        lemma_w_sum_nonneg(ws, k - 1);
        lemma_w_sum_wf(ws, k - 1);
        let a = w_sum(ws, k - 1);
        let b = ws[k - 1];
        assert(w_sum(ws, k).n >= 0) by (nonlinear_arith)
            requires
                w_sum(ws, k).n == a.n * b.d + b.n * a.d,
                a.n >= 0,
                b.n >= 0,
                a.d >= 1,
                b.d >= 1,
        ;
    }
}

proof fn lemma_w_sum_pos(ws: Seq<Q>, k: int, i: int)
    requires
        0 <= i < k <= ws.len(),
        ws_q_wf(ws),
        ws_nonneg(ws),
        ws[i].n > 0,
    ensures
        w_sum(ws, k).n > 0,
    decreases k,
{
    lemma_w_sum_nonneg(ws, k - 1);
    lemma_w_sum_wf(ws, k - 1);
    let a = w_sum(ws, k - 1);
    let b = ws[k - 1];
    if i < k - 1 {
        lemma_w_sum_pos(ws, k - 1, i);
        assert(w_sum(ws, k).n > 0) by (nonlinear_arith)
            requires
                w_sum(ws, k).n == a.n * b.d + b.n * a.d,
                a.n > 0,
                b.n >= 0,
                a.d >= 1,
                b.d >= 1,
        ;
    } else {
        assert(w_sum(ws, k).n > 0) by (nonlinear_arith)
            requires
                w_sum(ws, k).n == a.n * b.d + b.n * a.d,
                a.n >= 0,
                b.n > 0,
                a.d >= 1,
                b.d >= 1,
        ;
    }
}

proof fn lemma_mass_nonneg(ws: Seq<Q>, k: int)
    requires
        0 <= k <= ws.len(),
        ws_q_wf(ws),
        ws_nonneg(ws),
    ensures
        pair_mass_upto(ws, k).n >= 0,
    decreases k,
{
    if k > 0 {
        lemma_mass_nonneg(ws, k - 1);
        lemma_pair_mass_wf(ws, k - 1);
        lemma_w_sum_nonneg(ws, k - 1);
        lemma_w_sum_wf(ws, k - 1);
        lemma_q_ops_wf(w_sum(ws, k - 1), ws[k - 1]);
        let a = pair_mass_upto(ws, k - 1);
        let b = q_mul(w_sum(ws, k - 1), ws[k - 1]);
        assert(b.n >= 0) by (nonlinear_arith)
            requires
                b.n == w_sum(ws, k - 1).n * ws[k - 1].n,
                w_sum(ws, k - 1).n >= 0,
                ws[k - 1].n >= 0,
        ;
        assert(pair_mass_upto(ws, k).n >= 0) by (nonlinear_arith)
            requires
                pair_mass_upto(ws, k).n == a.n * b.d + b.n * a.d,
                a.n >= 0,
                b.n >= 0,
                a.d >= 1,
                b.d >= 1,
        ;
    }
}

proof fn lemma_mass_pos(ws: Seq<Q>, k: int, i: int, j: int)
    requires
        0 <= i < j < k <= ws.len(),
        ws_q_wf(ws),
        ws_nonneg(ws),
        ws[i].n > 0,
        ws[j].n > 0,
    ensures
        pair_mass_upto(ws, k).n > 0,
    decreases k,
{
    lemma_pair_mass_wf(ws, k - 1);
    lemma_w_sum_wf(ws, k - 1);
    lemma_q_ops_wf(w_sum(ws, k - 1), ws[k - 1]);
    let a = pair_mass_upto(ws, k - 1);
    let b = q_mul(w_sum(ws, k - 1), ws[k - 1]);
    if j < k - 1 {
        lemma_mass_pos(ws, k - 1, i, j);
        lemma_w_sum_nonneg(ws, k - 1);
        assert(b.n >= 0) by (nonlinear_arith)
            requires
                b.n == w_sum(ws, k - 1).n * ws[k - 1].n,
                w_sum(ws, k - 1).n >= 0,
                ws[k - 1].n >= 0,
        ;
        assert(pair_mass_upto(ws, k).n > 0) by (nonlinear_arith)
            requires
                pair_mass_upto(ws, k).n == a.n * b.d + b.n * a.d,
                a.n > 0,
                b.n >= 0,
                a.d >= 1,
                b.d >= 1,
        ;
    } else {
        lemma_mass_nonneg(ws, k - 1);
        lemma_w_sum_pos(ws, k - 1, i);
        assert(b.n > 0) by (nonlinear_arith)
            requires
                b.n == w_sum(ws, k - 1).n * ws[k - 1].n,
                w_sum(ws, k - 1).n > 0,
                ws[k - 1].n > 0,
        ;
        assert(pair_mass_upto(ws, k).n > 0) by (nonlinear_arith)
            requires
                pair_mass_upto(ws, k).n == a.n * b.d + b.n * a.d,
                a.n >= 0,
                b.n > 0,
                a.d >= 1,
                b.d >= 1,
        ;
    }
}

/// Law: for non-negative weights, the total pairwise weight mass is
/// zero exactly when at most one weight is nonzero, so the scaling
/// constant lambda exists exactly when two weights are nonzero.
pub proof fn lemma_zero_mass_iff(ws: Seq<Q>)
    requires
        ws_q_wf(ws),
        ws_nonneg(ws),
    ensures
        q_eq(pair_mass(ws), q_int(0)) <==> at_most_one_nonzero(ws),
{
    lemma_pair_mass_wf(ws, ws.len() as int);
    if at_most_one_nonzero(ws) {
        lemma_amo_mass(ws, ws.len() as int);
    }
    if !at_most_one_nonzero(ws) {
        let (i, j) = choose|i: int, j: int|
            0 <= i < j < ws.len() && (#[trigger] ws[i]).n != 0 && (#[trigger] ws[j]).n != 0;
        lemma_mass_pos(ws, ws.len() as int, i, j);
        assert(!q_eq(pair_mass(ws), q_int(0))) by (nonlinear_arith)
            requires
                pair_mass(ws).n > 0,
                pair_mass(ws).d >= 1,
        ;
    }
}


/// Law: for non-negative weights with nonzero pairwise mass, the
/// scaling constant - any value equal to the reciprocal of the mass,
/// as [`calc_lambda`] returns - is a positive scalar.
pub proof fn lemma_lambda_positive(l: Q, ws: Seq<Q>)
    requires
        ws_q_wf(ws),
        ws_nonneg(ws),
        q_wf(l),
        q_eq(l, q_inv(pair_mass(ws))),
        !q_eq(pair_mass(ws), q_int(0)),
    ensures
        q_le(q_int(0), l),
        !q_eq(l, q_int(0)),
{
    let mass = pair_mass(ws);
    lemma_pair_mass_wf(ws, ws.len() as int);
    lemma_mass_nonneg(ws, ws.len() as int);
    assert(mass.n * 1 != 0 * mass.d);
    assert(mass.n != 0) by (nonlinear_arith)
        requires
            mass.n * 1 != 0 * mass.d,
    ;
    assert(q_inv(mass) == Q { n: mass.d, d: mass.n });
    assert(l.n > 0 && 0 * l.d <= l.n * 1 && l.n * 1 != 0 * l.d) by (nonlinear_arith)
        requires
            l.n * mass.n == mass.d * l.d,
            mass.n > 0,
            mass.d >= 1,
            l.d >= 1,
    ;
}

} // verus!
