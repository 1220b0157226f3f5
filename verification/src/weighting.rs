//! Sequence weighting.
//!
//! One non-negative weight per aligned sequence, by one of two
//! schemes chosen per run.  The positional scheme (`hen`, after
//! Henikoff & Henikoff) sums, over the columns in which a sequence
//! holds a residue, `1 / (r * n_c)` where `r` is the number of
//! distinct residue letters observed in the column (gaps excluded)
//! and `n_c` the number of sequences sharing that sequence's letter
//! there.  The distance scheme (`va`, after Vingron & Argos) gives
//! sequence `i` the mean, over the other sequences, of the fraction
//! of columns at which the two sequences hold differing residues
//! (positions where either holds a gap are not counted as
//! mismatches); the fraction is taken over the total column count.

use vstd::prelude::*;
use crate::error::{ArithmeticKind, SpError};
use crate::rational::{
    lemma_q_add_congr, lemma_q_eq_trans, lemma_q_ops_wf, q_add, q_canon, q_eq, q_fits, q_int,
    q_le, q_wf, Q, Rat,
};

verus! {

/// The closed set of weighting schemes.
#[derive(Clone, Copy, PartialEq, Eq, Structural, Debug)]
pub enum Scheme {
    Hen,
    Va,
}

/// Which scheme a name denotes, if any.
pub open spec fn scheme_spec(s: Seq<char>) -> Option<Scheme> {
    if s == "hen"@ {
        Some(Scheme::Hen)
    } else if s == "va"@ {
        Some(Scheme::Va)
    } else {
        None
    }
}

/// Resolve a scheme name; `Configuration` error exactly when the
/// name is not `hen` or `va`, carrying that name.
pub fn scheme_of(s: &String) -> (r: Result<Scheme, SpError>)
    ensures
        r matches Ok(w) ==> scheme_spec(s@) == Some(w),
        r is Err <==> scheme_spec(s@) is None,
        r matches Err(e) ==> e matches SpError::Configuration { .. },
        r matches Err(SpError::Configuration { identifier }) ==> identifier@ == s@,
{
    if *s == "hen".to_owned() {
        Ok(Scheme::Hen)
    } else if *s == "va".to_owned() {
        Ok(Scheme::Va)
    } else {
        Err(SpError::Configuration { identifier: s.clone() })
    }
}

/// Occurrences of `c` among the first `k` characters of the column.
pub open spec fn col_count(col: Seq<char>, c: char, k: int) -> int
    decreases k,
{
    if k <= 0 {
        0
    } else {
        col_count(col, c, k - 1) + if col[k - 1] == c {
            1int
        } else {
            0int
        }
    }
}

/// Position `p` holds the first occurrence of its (non-gap) letter.
pub open spec fn is_first_occurrence(col: Seq<char>, p: int) -> bool {
    col[p] != '-' && forall|q: int| 0 <= q < p ==> col[q] != col[p]
}

/// Number of distinct non-gap letters among the first `k` positions,
/// counted at their first occurrences.
pub open spec fn distinct_upto(col: Seq<char>, k: int) -> int
    decreases k,
{
    if k <= 0 {
        0
    } else {
        distinct_upto(col, k - 1) + if is_first_occurrence(col, k - 1) {
            1int
        } else {
            0int
        }
    }
}

/// Number of distinct non-gap letters observed in the column.
pub open spec fn distinct_letters(col: Seq<char>) -> int {
    distinct_upto(col, col.len() as int)
}

proof fn lemma_count_nonneg(col: Seq<char>, c: char, k: int)
    ensures
        col_count(col, c, k) >= 0,
    decreases k,
{
    if k > 0 {
        lemma_count_nonneg(col, c, k - 1);
    }
}

proof fn lemma_count_pos(col: Seq<char>, c: char, i: int, k: int)
    requires
        0 <= i < k,
        col[i] == c,
    ensures
        col_count(col, c, k) >= 1,
    decreases k,
{
    lemma_count_nonneg(col, c, k - 1);
    if i < k - 1 {
        lemma_count_pos(col, c, i, k - 1);
    }
}

proof fn lemma_distinct_nonneg(col: Seq<char>, k: int)
    ensures
        distinct_upto(col, k) >= 0,
    decreases k,
{
    if k > 0 {
        lemma_distinct_nonneg(col, k - 1);
    }
}

/// Every non-gap position has a first occurrence of its letter.
proof fn lemma_first_exists(col: Seq<char>, i: int)
    requires
        0 <= i < col.len(),
        col[i] != '-',
    ensures
        exists|p: int| 0 <= p <= i && col[p] == col[i] && is_first_occurrence(col, p),
    decreases i,
{
    if forall|q: int| 0 <= q < i ==> col[q] != col[i] {
        assert(is_first_occurrence(col, i));
    } else {
        let q0 = choose|q: int| 0 <= q < i && col[q] == col[i];
        lemma_first_exists(col, q0);
    }
}

proof fn lemma_distinct_step(col: Seq<char>, p: int, k: int)
    requires
        0 <= p < k,
        is_first_occurrence(col, p),
    ensures
        distinct_upto(col, k) >= 1,
    decreases k,
{
    lemma_distinct_nonneg(col, k - 1);
    if p < k - 1 {
        lemma_distinct_step(col, p, k - 1);
    }
}

/// A column holding a residue at `i` has at least one distinct letter.
proof fn lemma_distinct_pos(col: Seq<char>, i: int)
    requires
        0 <= i < col.len(),
        col[i] != '-',
    ensures
        distinct_letters(col) >= 1,
{
    lemma_first_exists(col, i);
    let p = choose|p: int|
        0 <= p <= i && col[p] == col[i] && is_first_occurrence(col, p);
    lemma_distinct_step(col, p, col.len() as int);
}

/// Positional contribution of column `col` to the weight of the
/// sequence at row `i`: zero at a gap, else the reciprocal of
/// `distinct letters * sequences sharing the letter`.
pub open spec fn hen_term(col: Seq<char>, i: int) -> Q {
    if col[i] == '-' {
        q_int(0)
    } else {
        Q { n: 1, d: distinct_letters(col) * col_count(col, col[i], col.len() as int) }
    }
}

/// Sum of the positional contributions of the first `k` columns.
pub open spec fn hen_sum(sites: Seq<String>, i: int, k: int) -> Q
    decreases k,
{
    if k <= 0 {
        q_int(0)
    } else {
        q_add(hen_sum(sites, i, k - 1), hen_term(sites[k - 1]@, i))
    }
}

/// Positional (Henikoff) weight of the sequence at row `i`.
pub open spec fn hen_weight(sites: Seq<String>, i: int) -> Q {
    hen_sum(sites, i, sites.len() as int)
}

/// The positional contribution is a well-formed fraction.
proof fn lemma_hen_term_wf(col: Seq<char>, i: int)
    requires
        0 <= i < col.len(),
    ensures
        q_wf(hen_term(col, i)),
{
    if col[i] != '-' {
        lemma_distinct_pos(col, i);
        lemma_count_pos(col, col[i], i, col.len() as int);
        assert(distinct_letters(col) * col_count(col, col[i], col.len() as int) >= 1)
            by (nonlinear_arith)
            requires
                distinct_letters(col) >= 1,
                col_count(col, col[i], col.len() as int) >= 1,
        ;
    }
}

/// A partial positional weight is well formed.
proof fn lemma_hen_sum_wf(sites: Seq<String>, n: int, i: int, k: int)
    requires
        0 <= k <= sites.len(),
        cols_ok(sites, n),
        0 <= i < n,
    ensures
        q_wf(hen_sum(sites, i, k)),
    decreases k,
{
    if k > 0 {
        lemma_hen_sum_wf(sites, n, i, k - 1);
        lemma_hen_term_wf(sites[k - 1]@, i);
        lemma_q_ops_wf(hen_sum(sites, i, k - 1), hen_term(sites[k - 1]@, i));
    }
}

/// A well-formed value with non-negative numerator is at least zero.
proof fn lemma_nonneg_value(x: Q, y: Q)
    requires
        q_wf(x),
        q_wf(y),
        q_eq(x, y),
        y.n >= 0,
    ensures
        q_le(q_int(0), x),
{
    assert(x.n >= 0 && 0 * x.d <= x.n * 1) by (nonlinear_arith)
        requires
            x.n * y.d == y.n * x.d,
            y.n >= 0,
            x.d >= 1,
            y.d >= 1,
    ;
}

/// A partial positional weight is non-negative.
proof fn lemma_hen_sum_nonneg(sites: Seq<String>, n: int, i: int, k: int)
    requires
        0 <= k <= sites.len(),
        cols_ok(sites, n),
        0 <= i < n,
    ensures
        hen_sum(sites, i, k).n >= 0,
    decreases k,
{
    if k > 0 {
        lemma_hen_sum_nonneg(sites, n, i, k - 1);
        lemma_hen_sum_wf(sites, n, i, k - 1);
        lemma_hen_term_wf(sites[k - 1]@, i);
        let a = hen_sum(sites, i, k - 1);
        let b = hen_term(sites[k - 1]@, i);
        assert(hen_sum(sites, i, k).n >= 0) by (nonlinear_arith)
            requires
                hen_sum(sites, i, k).n == a.n * b.d + b.n * a.d,
                a.n >= 0,
                b.n >= 0,
                a.d >= 1,
                b.d >= 1,
        ;
    }
}

/// The executable fold of the positional weight of row `i` over the
/// first `k` columns: the canonically reduced running sum, or `None`
/// once a denominator or a reduced intermediate leaves the 64-bit
/// range.
pub open spec fn hen_fold(sites: Seq<String>, i: int, k: int) -> Option<Q>
    decreases k,
{
    if k <= 0 {
        Some(q_int(0))
    } else {
        match hen_fold(sites, i, k - 1) {
            None => None,
            Some(acc) => {
                let col = sites[k - 1]@;
                if col[i] == '-' {
                    Some(acc)
                } else {
                    let den = distinct_letters(col) * col_count(col, col[i], col.len() as int);
                    if den > i64::MAX as int {
                        None
                    } else {
                        let a2 = q_add(acc, Q { n: 1, d: den });
                        if !q_fits(a2) {
                            None
                        } else {
                            Some(q_canon(a2))
                        }
                    }
                }
            },
        }
    }
}

/// Once the fold has failed it stays failed.
proof fn lemma_hen_fold_none(sites: Seq<String>, i: int, k: int, k2: int)
    requires
        0 <= k <= k2,
        hen_fold(sites, i, k) is None,
    ensures
        hen_fold(sites, i, k2) is None,
    decreases k2,
{
    if k2 > k {
        lemma_hen_fold_none(sites, i, k, k2 - 1);
    }
}

/// Mismatches between two rows over the first `k` columns: positions
/// where both hold residues and the residues differ.
pub open spec fn mism_upto(a: Seq<char>, b: Seq<char>, k: int) -> int
    decreases k,
{
    if k <= 0 {
        0
    } else {
        mism_upto(a, b, k - 1) + if a[k - 1] != '-' && b[k - 1] != '-' && a[k - 1] != b[k - 1] {
            1int
        } else {
            0int
        }
    }
}

/// Total mismatch count of rows `i` and `j` over all columns.
pub open spec fn mismatches(a: Seq<char>, b: Seq<char>) -> int {
    mism_upto(a, b, a.len() as int)
}

/// Summed mismatch counts of row `i` against the first `k` rows.
pub open spec fn va_total(seqs: Seq<String>, i: int, k: int) -> int
    decreases k,
{
    if k <= 0 {
        0
    } else {
        va_total(seqs, i, k - 1) + if k - 1 == i {
            0int
        } else {
            mismatches(seqs[i]@, seqs[k - 1]@)
        }
    }
}

/// Distance (Vingron-Argos) weight of row `i`: the summed mismatch
/// fractions against the other rows, divided by the number of other
/// rows; zero when there are no columns.
pub open spec fn va_weight(seqs: Seq<String>, i: int, nsites: int) -> Q {
    if nsites >= 1 && seqs.len() >= 2 {
        Q { n: va_total(seqs, i, seqs.len() as int), d: nsites * (seqs.len() - 1) }
    } else {
        q_int(0)
    }
}

/// Every column holds one character per sequence.
pub open spec fn cols_ok(sites: Seq<String>, n: int) -> bool {
    forall|k: int| 0 <= k < sites.len() ==> (#[trigger] sites[k])@.len() == n
}

/// Every sequence holds one character per column.
pub open spec fn rows_ok(seqs: Seq<String>, nsites: int) -> bool {
    forall|i: int| 0 <= i < seqs.len() ==> (#[trigger] seqs[i])@.len() == nsites
}

/// The weight a scheme assigns to row `i`.
pub open spec fn weight_spec(
    scheme: Scheme,
    seqs: Seq<String>,
    sites: Seq<String>,
    i: int,
) -> Q {
    match scheme {
        Scheme::Hen => hen_weight(sites, i),
        Scheme::Va => va_weight(seqs, i, sites.len() as int),
    }
}

/// Number of distinct non-gap letters of one column, by scanning for
/// first occurrences.
fn count_distinct(site: &String) -> (r: usize)
    ensures
        r as int == distinct_letters(site@),
        r <= site@.len(),
{
    let n = site.as_str().unicode_len();
    let mut d: usize = 0;
    let mut p: usize = 0;
    while p < n
        invariant
            n == site@.len(),
            p <= n,
            d as int == distinct_upto(site@, p as int),
            d <= p,
        decreases n - p,
    {
        let cp = site.as_str().get_char(p);
        let mut seen = false;
        let mut q: usize = 0;
        if cp != '-' {
            while q < p
                invariant
                    n == site@.len(),
                    p < n,
                    q <= p,
                    cp == site@[p as int],
                    seen <==> exists|x: int| 0 <= x < q && site@[x] == site@[p as int],
                decreases p - q,
            {
                if site.as_str().get_char(q) == cp {
                    seen = true;
                }
                q += 1;
            }
            if !seen {
                proof {
                    assert(is_first_occurrence(site@, p as int));
                }
                d += 1;
            } else {
                proof {
                    assert(!is_first_occurrence(site@, p as int));
                }
            }
        } else {
            proof {
                assert(!is_first_occurrence(site@, p as int));
            }
        }
        p += 1;
    }
    d
}

/// Occurrences of `c` in one column.
fn count_letter(site: &String, c: char) -> (r: usize)
    ensures
        r as int == col_count(site@, c, site@.len() as int),
        r <= site@.len(),
{
    let n = site.as_str().unicode_len();
    let mut cnt: usize = 0;
    let mut p: usize = 0;
    while p < n
        invariant
            n == site@.len(),
            p <= n,
            cnt as int == col_count(site@, c, p as int),
            cnt <= p,
        decreases n - p,
    {
        if site.as_str().get_char(p) == c {
            cnt += 1;
        }
        p += 1;
    }
    cnt
}

/// Mismatch count of two equal-length rows.
fn count_mismatches(a: &String, b: &String) -> (r: usize)
    requires
        a@.len() == b@.len(),
    ensures
        r as int == mismatches(a@, b@),
        r <= a@.len(),
{
    let n = a.as_str().unicode_len();
    let mut cnt: usize = 0;
    let mut p: usize = 0;
    while p < n
        invariant
            n == a@.len(),
            a@.len() == b@.len(),
            p <= n,
            cnt as int == mism_upto(a@, b@, p as int),
            cnt <= p,
        decreases n - p,
    {
        let ca = a.as_str().get_char(p);
        let cb = b.as_str().get_char(p);
        if ca != '-' && cb != '-' && ca != cb {
            cnt += 1;
        }
        p += 1;
    }
    cnt
}

/// One weight per sequence under the named scheme.
///
/// Fails with `Configuration` exactly when the scheme name is not
/// recognized; with `Input` exactly when some column's length is not
/// the sequence count (or, for the distance scheme, some sequence's
/// length is not the column count); for the distance scheme, with
/// `TooFewSequences` exactly when fewer than two sequences remain
/// after those checks.  On success, weight `i` is exactly the
/// scheme's formula for row `i`, and is non-negative.
pub fn seq_weight(seq_list: &Vec<String>, site_list: &Vec<String>, arg_w: &String) -> (r: Result<
    Vec<Rat>,
    SpError,
>)
    ensures
        (r matches Err(e) && (e matches SpError::Configuration { .. })) <==> scheme_spec(arg_w@)
            is None,
        r matches Err(SpError::Configuration { identifier }) ==> identifier@ == arg_w@,
        (r matches Err(e) && (e matches SpError::Input { .. })) <==> (scheme_spec(arg_w@) is Some
            && !(cols_ok(site_list@, seq_list@.len() as int) && (scheme_spec(arg_w@) == Some(
            Scheme::Va,
        ) ==> rows_ok(seq_list@, site_list@.len() as int)))),
        (r == Err::<Vec<Rat>, SpError>(
            SpError::Arithmetic { kind: ArithmeticKind::TooFewSequences },
        )) <==> (scheme_spec(arg_w@) == Some(Scheme::Va) && cols_ok(
            site_list@,
            seq_list@.len() as int,
        ) && rows_ok(seq_list@, site_list@.len() as int) && seq_list@.len() < 2),
        ({
            let n = seq_list@.len() as int;
            let nsites = site_list@.len() as int;
            &&& (scheme_spec(arg_w@) == Some(Scheme::Hen) ==> (r is Ok <==> (cols_ok(
                site_list@,
                n,
            ) && forall|i: int|
                0 <= i < n ==> (#[trigger] hen_fold(site_list@, i, nsites)) is Some)))
            &&& (scheme_spec(arg_w@) == Some(Scheme::Va) ==> (r is Ok <==> (cols_ok(site_list@, n)
                && rows_ok(seq_list@, nsites) && n >= 2 && (nsites == 0 || (nsites * (n - 1)
                <= i64::MAX as int && forall|i: int|
                0 <= i < n ==> #[trigger] va_total(seq_list@, i, n) <= i64::MAX as int)))))
            &&& (scheme_spec(arg_w@) == Some(Scheme::Hen) ==> (r matches Ok(w) ==> forall|i: int|
                0 <= i < w@.len() ==> (#[trigger] w@[i])@ == hen_fold(
                    site_list@,
                    i,
                    nsites,
                ).unwrap()))
            &&& (scheme_spec(arg_w@) == Some(Scheme::Va) ==> (r matches Ok(w) ==> forall|i: int|
                0 <= i < w@.len() ==> (#[trigger] w@[i])@ == va_weight(seq_list@, i, nsites)))
        }),
        r matches Ok(w) ==> {
            &&& scheme_spec(arg_w@) is Some
            &&& cols_ok(site_list@, seq_list@.len() as int)
            &&& w@.len() == seq_list@.len()
            &&& forall|i: int|
                0 <= i < w@.len() ==> (#[trigger] w@[i]).wf() && q_le(q_int(0), w@[i]@) && q_eq(
                    w@[i]@,
                    weight_spec(
                        scheme_spec(arg_w@).unwrap(),
                        seq_list@,
                        site_list@,
                        i,
                    ),
                )
        },
        r matches Err(e) ==> (e matches SpError::Configuration { .. }) || (e
            matches SpError::Input { .. }) || e == (SpError::Arithmetic {
            kind: ArithmeticKind::TooFewSequences,
        }) || e == SpError::Overflow,
{
    let scheme = match scheme_of(arg_w) {
        Ok(s) => s,
        Err(e) => {
            return Err(e);
        },
    };
    let n = seq_list.len();
    let nsites = site_list.len();
    // every column must hold one character per sequence
    let mut k: usize = 0;
    while k < nsites
        invariant
            n == seq_list@.len(),
            nsites == site_list@.len(),
            scheme_spec(arg_w@) == Some(scheme),
            k <= nsites,
            forall|j: int| 0 <= j < k ==> (#[trigger] site_list@[j])@.len() == n,
        decreases nsites - k,
    {
        let l = site_list[k].as_str().unicode_len();
        if l != n {
            return Err(SpError::Input { expected: n, found: l });
        }
        k += 1;
    }
    match scheme {
        Scheme::Hen => hen_weights(seq_list, site_list),
        Scheme::Va => va_weights(seq_list, site_list),
    }
}

/// Positional (Henikoff) weights for all rows.
fn hen_weights(seq_list: &Vec<String>, site_list: &Vec<String>) -> (r: Result<Vec<Rat>, SpError>)
    requires
        cols_ok(site_list@, seq_list@.len() as int),
    ensures
        r matches Ok(w) ==> w@.len() == seq_list@.len() && forall|i: int|
            0 <= i < w@.len() ==> (#[trigger] w@[i]).wf() && q_le(q_int(0), w@[i]@) && q_eq(
                w@[i]@,
                hen_weight(site_list@, i),
            ),
        r matches Err(e) ==> e == SpError::Overflow,
        r is Ok <==> (forall|i: int|
            0 <= i < seq_list@.len() ==> (#[trigger] hen_fold(
                site_list@,
                i,
                site_list@.len() as int,
            )) is Some),
        r matches Ok(w) ==> forall|i: int|
            0 <= i < w@.len() ==> hen_fold(site_list@, i, site_list@.len() as int) is Some && (
            #[trigger] w@[i])@ == hen_fold(site_list@, i, site_list@.len() as int).unwrap(),
{
    let n = seq_list.len();
    let nsites = site_list.len();
    let mut out: Vec<Rat> = Vec::new();
    let mut i: usize = 0;
    while i < n
        invariant
            n == seq_list@.len(),
            nsites == site_list@.len(),
            cols_ok(site_list@, n as int),
            i <= n,
            out@.len() == i,
            forall|x: int|
                0 <= x < i ==> (#[trigger] out@[x]).wf() && q_le(q_int(0), out@[x]@) && q_eq(
                    out@[x]@,
                    hen_weight(site_list@, x),
                ),
            forall|x: int|
                0 <= x < i ==> (#[trigger] hen_fold(site_list@, x, nsites as int)) is Some,
            forall|x: int|
                0 <= x < i ==> (#[trigger] out@[x])@ == hen_fold(
                    site_list@,
                    x,
                    nsites as int,
                ).unwrap(),
        decreases n - i,
    {
        let mut acc = Rat::zero();
        let mut k: usize = 0;
        while k < nsites
            invariant
                n == seq_list@.len(),
                nsites == site_list@.len(),
                cols_ok(site_list@, n as int),
                i < n,
                k <= nsites,
                acc.wf(),
                q_eq(acc@, hen_sum(site_list@, i as int, k as int)),
                hen_fold(site_list@, i as int, k as int) == Some(acc@),
            decreases nsites - k,
        {
            let site = &site_list[k];
            let ci = site.as_str().get_char(i);
            let ghost col = site@;
            let ghost cterm = hen_term(col, i as int);
            if ci == '-' {
                proof {
                    assert(hen_fold(site_list@, i as int, k as int + 1) == Some(acc@));
                    assert(cterm == q_int(0));
                    let hs = hen_sum(site_list@, i as int, k as int);
                    assert(q_add(hs, q_int(0)).n == hs.n && q_add(hs, q_int(0)).d == hs.d)
                        by (nonlinear_arith)
                        requires
                            q_add(hs, q_int(0)).n == hs.n * 1 + 0 * hs.d,
                            q_add(hs, q_int(0)).d == hs.d * 1,
                    ;
                    assert(hen_sum(site_list@, i as int, k as int + 1) == q_add(hs, cterm));
                    assert(q_eq(acc@, hen_sum(site_list@, i as int, k as int + 1)));
                }
            } else {
                let d = count_distinct(site);
                let c = count_letter(site, ci);
                proof {
                    assert((d as u128) as int * ((c as u128) as int)
                        <= 0xFFFF_FFFF_FFFF_FFFF_FFFF_FFFF_FFFF_FFFF) by (nonlinear_arith)
                        requires
                            (d as u128) as int <= 0xFFFF_FFFF_FFFF_FFFF,
                            (c as u128) as int <= 0xFFFF_FFFF_FFFF_FFFF,
                            0 <= (d as u128) as int,
                            0 <= (c as u128) as int,
                    ;
                }
                let prod: u128 = (d as u128) * (c as u128);
                if prod > i64::MAX as u128 {
                    proof {
                        assert(hen_fold(site_list@, i as int, k as int + 1) is None);
                        lemma_hen_fold_none(site_list@, i as int, k as int + 1, nsites as int);
                    }
                    return Err(SpError::Overflow);
                }
                proof {
                    lemma_hen_term_wf(col, i as int);
                    assert(cterm == Q { n: 1, d: prod as int });
                }
                let e = Rat::frac(1, prod as i64);
                let acc2 = match acc.checked_add(&e) {
                    Some(t) => t,
                    None => {
                        proof {
                            assert(hen_fold(site_list@, i as int, k as int + 1) is None);
                            lemma_hen_fold_none(site_list@, i as int, k as int + 1, nsites as int);
                        }
                        return Err(SpError::Overflow);
                    },
                };
                proof {
                    lemma_hen_sum_wf(site_list@, n as int, i as int, k as int);
                    lemma_q_add_congr(acc@, hen_sum(site_list@, i as int, k as int), e@, cterm);
                    lemma_q_ops_wf(hen_sum(site_list@, i as int, k as int), cterm);
                    lemma_q_ops_wf(acc@, e@);
                    lemma_q_eq_trans(
                        acc2@,
                        q_add(acc@, e@),
                        q_add(hen_sum(site_list@, i as int, k as int), cterm),
                    );
                    assert(hen_fold(site_list@, i as int, k as int + 1) == Some(acc2@));
                }
                acc = acc2;
            }
            k += 1;
        }
        proof {
            lemma_hen_sum_nonneg(site_list@, n as int, i as int, nsites as int);
            lemma_hen_sum_wf(site_list@, n as int, i as int, nsites as int);
            lemma_nonneg_value(acc@, hen_sum(site_list@, i as int, nsites as int));
            assert(hen_fold(site_list@, i as int, nsites as int) == Some(acc@));
        }
        out.push(acc);
        i += 1;
    }
    Ok(out)
}

/// Distance (Vingron-Argos) weights for all rows.
fn va_weights(seq_list: &Vec<String>, site_list: &Vec<String>) -> (r: Result<Vec<Rat>, SpError>)
    ensures
        (r matches Err(e) && (e matches SpError::Input { .. })) <==> !rows_ok(
            seq_list@,
            site_list@.len() as int,
        ),
        (r == Err::<Vec<Rat>, SpError>(
            SpError::Arithmetic { kind: ArithmeticKind::TooFewSequences },
        )) <==> (rows_ok(seq_list@, site_list@.len() as int) && seq_list@.len() < 2),
        r matches Ok(w) ==> seq_list@.len() >= 2 && w@.len() == seq_list@.len() && forall|i: int|
            0 <= i < w@.len() ==> (#[trigger] w@[i]).wf() && q_le(q_int(0), w@[i]@) && w@[i]@
                == va_weight(seq_list@, i, site_list@.len() as int),
        r matches Err(e) ==> (e matches SpError::Input { .. }) || e == (SpError::Arithmetic {
            kind: ArithmeticKind::TooFewSequences,
        }) || e == SpError::Overflow,
        ({
            let n = seq_list@.len() as int;
            let nsites = site_list@.len() as int;
            &&& ((r == Err::<Vec<Rat>, SpError>(SpError::Overflow)) <==> (rows_ok(
                seq_list@,
                nsites,
            ) && n >= 2 && nsites >= 1 && (nsites * (n - 1) > i64::MAX as int || exists|i: int|
                0 <= i < n && #[trigger] va_total(seq_list@, i, n) > i64::MAX as int)))
            &&& (r is Ok <==> (rows_ok(seq_list@, nsites) && n >= 2 && (nsites == 0 || (nsites * (n
                - 1) <= i64::MAX as int && forall|i: int|
                0 <= i < n ==> #[trigger] va_total(seq_list@, i, n) <= i64::MAX as int))))
        }),
{
    let n = seq_list.len();
    let nsites = site_list.len();
    // every sequence must hold one character per column
    let mut i: usize = 0;
    while i < n
        invariant
            n == seq_list@.len(),
            nsites == site_list@.len(),
            i <= n,
            forall|j: int| 0 <= j < i ==> (#[trigger] seq_list@[j])@.len() == nsites,
        decreases n - i,
    {
        let l = seq_list[i].as_str().unicode_len();
        if l != nsites {
            return Err(SpError::Input { expected: nsites, found: l });
        }
        i += 1;
    }
    if n < 2 {
        return Err(SpError::Arithmetic { kind: ArithmeticKind::TooFewSequences });
    }
    let mut denv: i64 = 1;
    if nsites >= 1 {
        proof {
            assert((nsites as u128) as int * (((n - 1) as u128) as int)
                <= 0xFFFF_FFFF_FFFF_FFFF_FFFF_FFFF_FFFF_FFFF) by (nonlinear_arith)
                requires
                    0 <= (nsites as u128) as int <= 0xFFFF_FFFF_FFFF_FFFF,
                    0 <= ((n - 1) as u128) as int <= 0xFFFF_FFFF_FFFF_FFFF,
            ;
        }
        let den: u128 = (nsites as u128) * ((n - 1) as u128);
        if den > i64::MAX as u128 {
            return Err(SpError::Overflow);
        }
        proof {
            assert(1 <= den as int) by (nonlinear_arith)
                requires
                    den as int == (nsites as int) * ((n - 1) as int),
                    1 <= nsites as int,
                    1 <= (n - 1) as int,
            ;
        }
        denv = den as i64;
    }
    let mut out: Vec<Rat> = Vec::new();
    let mut i: usize = 0;
    while i < n
        invariant
            n == seq_list@.len(),
            nsites == site_list@.len(),
            rows_ok(seq_list@, nsites as int),
            2 <= n,
            i <= n,
            out@.len() == i,
            nsites >= 1 ==> 1 <= denv && denv as int == (nsites as int) * ((n - 1) as int)
                && (nsites as int) * ((n - 1) as int) <= i64::MAX as int,
            forall|x: int|
                0 <= x < i ==> (#[trigger] out@[x]).wf() && q_le(q_int(0), out@[x]@) && out@[x]@
                    == va_weight(seq_list@, x, nsites as int),
            nsites >= 1 ==> forall|x: int|
                0 <= x < i ==> #[trigger] va_total(seq_list@, x, n as int) <= i64::MAX as int,
        decreases n - i,
    {
        if nsites == 0 {
            proof {
                assert(va_weight(seq_list@, i as int, 0) == q_int(0));
            }
            let z = Rat::zero();
            proof {
                lemma_nonneg_value(z@, z@);
            }
            out.push(z);
            i += 1;
            continue ;
        }
        let mut total: u128 = 0;
        let mut j: usize = 0;
        while j < n
            invariant
                n == seq_list@.len(),
                nsites == site_list@.len(),
                rows_ok(seq_list@, nsites as int),
                2 <= n,
                1 <= nsites,
                i < n,
                j <= n,
                total as int == va_total(seq_list@, i as int, j as int),
                total <= (j as u128) * (nsites as u128),
            decreases n - j,
        {
            if j != i {
                let m = count_mismatches(&seq_list[i], &seq_list[j]);
                proof {
                    assert(total as int + m as int <= (j as int + 1) * (nsites as int)
                        && (j as int + 1) * (nsites as int)
                        <= 0xFFFF_FFFF_FFFF_FFFF_FFFF_FFFF_FFFF_FFFF) by (nonlinear_arith)
                        requires
                            total as int <= (j as int) * (nsites as int),
                            m as int <= nsites as int,
                            0 <= j as int,
                            j as int + 1 <= 0xFFFF_FFFF_FFFF_FFFF,
                            0 <= nsites as int,
                            nsites as int <= 0xFFFF_FFFF_FFFF_FFFF,
                    ;
                }
                total = total + m as u128;
            } else {
                proof {
                    assert((total as int) <= (j as int + 1) * (nsites as int))
                        by (nonlinear_arith)
                        requires
                            total as int <= (j as int) * (nsites as int),
                            0 <= j as int,
                            0 <= nsites as int,
                    ;
                }
            }
            j += 1;
        }
        if total > i64::MAX as u128 {
            proof {
                assert(va_total(seq_list@, i as int, n as int) > i64::MAX as int);
            }
            return Err(SpError::Overflow);
        }
        proof {
            assert(va_weight(seq_list@, i as int, nsites as int) == Q {
                n: va_total(seq_list@, i as int, n as int),
                d: (nsites as int) * ((n - 1) as int),
            });
        }
        let w = Rat::frac(total as i64, denv);
        proof {
            lemma_nonneg_value(w@, w@);
        }
        out.push(w);
        i += 1;
    }
    Ok(out)
}

} // verus!
