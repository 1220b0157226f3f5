use spmeasure::error::{ArithmeticKind, IntegrityKind, SpError};
use spmeasure::matrices::{define_matrix, matrix_id_of, raw_matrix, MatrixId};
use spmeasure::rational::Rat;
use spmeasure::spmeasure::{calc_lambda, calc_sp, normalize_matrix, score_with_matrix, sum_of_pairs};
use spmeasure::weighting::{scheme_of, seq_weight, Scheme};

fn strings(v: &[&str]) -> Vec<String> {
    v.iter().map(|s| s.to_string()).collect()
}

#[test]
fn matrix_ids_resolve() {
    for name in [
        "blosum45", "blosum50", "blosum62", "blosum80", "blosum90", "pam30", "pam70", "pam250",
        "pet91mod", "blosum62mod",
    ] {
        assert!(matrix_id_of(&name.to_string()).is_ok());
    }
    let e = matrix_id_of(&"blosum999".to_string());
    assert!(matches!(e, Err(SpError::Configuration { .. })));
}

#[test]
fn scheme_names_resolve() {
    assert_eq!(scheme_of(&"hen".to_string()).unwrap(), Scheme::Hen);
    assert_eq!(scheme_of(&"va".to_string()).unwrap(), Scheme::Va);
    assert!(matches!(
        scheme_of(&"other".to_string()),
        Err(SpError::Configuration { .. })
    ));
}

#[test]
fn blosum62_table_shape() {
    let m = raw_matrix(MatrixId::Blosum62);
    assert_eq!(m.len(), 400);
    // A-A, W-W, and the global extremes of the published table
    assert_eq!(m[0], 4);
    assert_eq!(m[17 * 20 + 17], 11);
    assert_eq!(*m.iter().max().unwrap(), 11);
    assert_eq!(*m.iter().min().unwrap(), -4);
    for a in 0..20 {
        for b in 0..20 {
            assert_eq!(m[a * 20 + b], m[b * 20 + a]);
        }
    }
}

#[test]
fn normalization_range_and_extremes() {
    let raw = define_matrix(&"blosum62".to_string()).unwrap();
    let nm = normalize_matrix(&raw).unwrap();
    let zero = Rat::zero();
    let one = Rat::one();
    let mut saw_zero = false;
    let mut saw_one = false;
    for a in 0..20usize {
        for b in 0..20usize {
            let e = nm.get(a, b);
            assert!(zero.le(&e) && e.le(&one));
            if e.eq_rat(&zero) {
                saw_zero = true;
            }
            if e.eq_rat(&one) {
                saw_one = true;
            }
        }
    }
    assert!(saw_zero && saw_one);
    // A-A rescales to (4 - (-4)) / (11 - (-4)) = 8/15
    assert!(nm.get(0, 0).eq_rat(&Rat::new(8, 15)));
    // W-W is the maximum, so it rescales to exactly 1
    assert!(nm.get(17, 17).eq_rat(&Rat::one()));
}

#[test]
fn normalization_preserves_symmetry() {
    let raw = define_matrix(&"pam250".to_string()).unwrap();
    let nm = normalize_matrix(&raw).unwrap();
    for a in 0..20usize {
        for b in 0..20usize {
            assert!(nm.get(a, b).eq_rat(&nm.get(b, a)));
        }
    }
}

#[test]
fn degenerate_matrix_rejected() {
    let constant: Vec<i64> = vec![3; 400];
    let r = normalize_matrix(&constant);
    assert!(matches!(
        r,
        Err(SpError::Integrity { kind: IntegrityKind::Degenerate })
    ));
}

#[test]
fn wrong_dimension_rejected() {
    let short: Vec<i64> = vec![1; 399];
    let r = normalize_matrix(&short);
    assert!(matches!(
        r,
        Err(SpError::Integrity { kind: IntegrityKind::Dimension })
    ));
}

#[test]
fn asymmetric_matrix_rejected() {
    let mut m: Vec<i64> = vec![0; 400];
    for k in 0..20 {
        m[k * 20 + k] = 5;
    }
    m[1] = 2; // entry (0,1) without its mirror
    let r = normalize_matrix(&m);
    assert!(matches!(
        r,
        Err(SpError::Integrity { kind: IntegrityKind::Asymmetric })
    ));
}

#[test]
fn lambda_formula() {
    // weights [1, 1] -> lambda = 1
    let w = vec![Rat::one(), Rat::one()];
    assert_eq!(calc_lambda(&w).unwrap(), Rat::one());
    // weights [1/2, 1/2, 1/2] -> lambda = 1 / (3/4) = 4/3
    let h = Rat::new(1, 2);
    let w = vec![h, h, h];
    assert_eq!(calc_lambda(&w).unwrap(), Rat::new(4, 3));
}

#[test]
fn lambda_needs_two_sequences() {
    let w = vec![Rat::one()];
    assert!(matches!(
        calc_lambda(&w),
        Err(SpError::Arithmetic { kind: ArithmeticKind::TooFewSequences })
    ));
}

#[test]
fn lambda_zero_mass_rejected() {
    let w = vec![Rat::one(), Rat::zero()];
    assert!(matches!(
        calc_lambda(&w),
        Err(SpError::Arithmetic { kind: ArithmeticKind::ZeroPairMass })
    ));
}

#[test]
fn gap_dominated_column_scores_zero() {
    // every pair of ["-", "-", "A"] touches a gap
    let sites = strings(&["--A"]);
    let w = vec![Rat::new(7, 2), Rat::one(), Rat::new(1, 3)];
    let raw = define_matrix(&"blosum62".to_string()).unwrap();
    let scores = score_with_matrix(&sites, &w, &raw).unwrap();
    assert_eq!(scores.len(), 1);
    assert!(scores[0].eq_rat(&Rat::zero()));
}

#[test]
fn identical_residue_column_scores_diagonal() {
    // any weights with nonzero mass: the score is the A-A entry, 8/15
    let sites = strings(&["AAA"]);
    let raw = define_matrix(&"blosum62".to_string()).unwrap();
    for w in [
        vec![Rat::one(), Rat::one(), Rat::one()],
        vec![Rat::new(1, 2), Rat::new(1, 2), Rat::new(1, 2)],
        vec![Rat::new(5, 1), Rat::new(1, 7), Rat::new(2, 3)],
    ] {
        let scores = score_with_matrix(&sites, &w, &raw).unwrap();
        assert_eq!(scores[0], Rat::new(8, 15));
    }
}

#[test]
fn hen_weights_expected() {
    let seqs = strings(&["AY", "AW", "AV"]);
    let sites = strings(&["AAA", "YWV"]);
    let w = seq_weight(&seqs, &sites, &"hen".to_string()).unwrap();
    // column AAA: 1/(1*3) each; column YWV: 1/(3*1) each; total 2/3
    assert_eq!(w, vec![Rat::new(2, 3), Rat::new(2, 3), Rat::new(2, 3)]);
}

#[test]
fn va_weights_expected() {
    let seqs = strings(&["AY", "AW", "AV"]);
    let sites = strings(&["AAA", "YWV"]);
    let w = seq_weight(&seqs, &sites, &"va".to_string()).unwrap();
    // each pair mismatches at 1 of 2 columns: (1+1) / (2*2) = 1/2
    assert_eq!(w.len(), 3);
    for wi in &w {
        assert!(wi.eq_rat(&Rat::new(1, 2)));
    }
}

#[test]
fn hen_weight_with_gaps() {
    let seqs = strings(&["A-", "AC", "AC"]);
    let sites = strings(&["AAA", "-CC"]);
    let w = seq_weight(&seqs, &sites, &"hen".to_string()).unwrap();
    // row 0: 1/3 from AAA, gap contributes nothing
    assert_eq!(w[0], Rat::new(1, 3));
    // rows 1, 2: 1/3 + 1/(1*2) = 5/6
    assert_eq!(w[1], Rat::new(5, 6));
    assert_eq!(w[2], Rat::new(5, 6));
}

#[test]
fn seq_weight_rejects_bad_scheme() {
    let seqs = strings(&["AY"]);
    let sites = strings(&["A", "Y"]);
    assert!(matches!(
        seq_weight(&seqs, &sites, &"median".to_string()),
        Err(SpError::Configuration { .. })
    ));
}

#[test]
fn seq_weight_rejects_column_length_mismatch() {
    let seqs = strings(&["AY", "AW"]);
    let sites = strings(&["AAA", "YW"]);
    assert!(matches!(
        seq_weight(&seqs, &sites, &"hen".to_string()),
        Err(SpError::Input { .. })
    ));
}

#[test]
fn va_needs_two_sequences() {
    let seqs = strings(&["AY"]);
    let sites = strings(&["A", "Y"]);
    assert!(matches!(
        seq_weight(&seqs, &sites, &"va".to_string()),
        Err(SpError::Arithmetic { kind: ArithmeticKind::TooFewSequences })
    ));
}

#[test]
fn sum_of_pairs_rejects_bad_matrix_name() {
    let sites = strings(&["AA"]);
    let w = vec![Rat::one(), Rat::one()];
    assert!(matches!(
        sum_of_pairs(&sites, &w, &"nosuch".to_string()),
        Err(SpError::Configuration { .. })
    ));
}

#[test]
fn sum_of_pairs_rejects_site_length_mismatch() {
    let sites = strings(&["AAA", "AA"]);
    let w = vec![Rat::one(), Rat::one(), Rat::one()];
    assert!(matches!(
        sum_of_pairs(&sites, &w, &"blosum62".to_string()),
        Err(SpError::Input { .. })
    ));
}

#[test]
fn end_to_end_both_schemes() {
    // three equal-length sequences; the AAA column scores the
    // rescaled A-A diagonal, 8/15, under either weighting scheme
    let seqs = strings(&["AY", "AW", "AV"]);
    let sites = strings(&["AAA", "YWV"]);
    for scheme in ["hen", "va"] {
        let w = seq_weight(&seqs, &sites, &scheme.to_string()).unwrap();
        let scores = sum_of_pairs(&sites, &w, &"blosum62".to_string()).unwrap();
        assert_eq!(scores.len(), 2);
        assert_eq!(scores[0], Rat::new(8, 15));
    }
}

#[test]
fn end_to_end_expected_mixed_column() {
    // hen weights are all 2/3, lambda is 3/4; column YWV scores
    // 3/4 * 3 * (2/3)^2 * mean is worked out exactly: 2/9
    let seqs = strings(&["AY", "AW", "AV"]);
    let sites = strings(&["AAA", "YWV"]);
    let w = seq_weight(&seqs, &sites, &"hen".to_string()).unwrap();
    let scores = sum_of_pairs(&sites, &w, &"blosum62".to_string()).unwrap();
    assert_eq!(scores[1], Rat::new(2, 9));
}

#[test]
fn determinism() {
    let seqs = strings(&["AY", "AW", "AV"]);
    let sites = strings(&["AAA", "YWV"]);
    let w1 = seq_weight(&seqs, &sites, &"hen".to_string()).unwrap();
    let w2 = seq_weight(&seqs, &sites, &"hen".to_string()).unwrap();
    assert_eq!(w1, w2);
    let s1 = sum_of_pairs(&sites, &w1, &"blosum62".to_string()).unwrap();
    let s2 = sum_of_pairs(&sites, &w2, &"blosum62".to_string()).unwrap();
    assert_eq!(s1, s2);
}

#[test]
fn calc_sp_raw_value() {
    // raw (unscaled) sum for AAA with unit weights: 3 * 8/15 = 8/5
    let raw = define_matrix(&"blosum62".to_string()).unwrap();
    let nm = normalize_matrix(&raw).unwrap();
    let w = vec![Rat::one(), Rat::one(), Rat::one()];
    let s = calc_sp(&"AAA".to_string(), &w, &nm).unwrap();
    assert_eq!(s, Rat::new(8, 5));
}

#[test]
fn rational_arithmetic_exact() {
    let a = Rat::new(1, 3);
    let b = Rat::new(1, 6);
    assert_eq!(a.checked_add(&b).unwrap(), Rat::new(1, 2));
    assert_eq!(a.checked_mul(&b).unwrap(), Rat::new(1, 18));
    assert_eq!(Rat::new(2, 4), Rat::new(1, 2));
    assert_eq!(Rat::new(4, 3).invert().unwrap(), Rat::new(3, 4));
    assert!(Rat::new(1, 3).le(&Rat::new(1, 2)));
    assert!(!Rat::new(1, 2).le(&Rat::new(1, 3)));
    assert_eq!(Rat::new(8, 15).num(), 8);
    assert_eq!(Rat::new(8, 15).den(), 15);
}

#[test]
fn identifiers_give_their_own_tables() {
    // distinct families really give distinct tables
    let b62 = raw_matrix(MatrixId::Blosum62);
    let p30 = raw_matrix(MatrixId::Pam30);
    let b45 = raw_matrix(MatrixId::Blosum45);
    assert_ne!(b62, p30);
    assert_ne!(b62, b45);
    assert_ne!(p30, b45);
    // the two modified variants carry their base families' tables,
    // as their documentation states
    assert_eq!(raw_matrix(MatrixId::Pet91Mod), raw_matrix(MatrixId::Pam250));
    assert_eq!(raw_matrix(MatrixId::Blosum62Mod), b62);
}

#[test]
fn configuration_error_carries_identifier() {
    match matrix_id_of(&"blosum999".to_string()) {
        Err(SpError::Configuration { identifier }) => assert_eq!(identifier, "blosum999"),
        _ => panic!("expected a configuration error"),
    }
    match scheme_of(&"median".to_string()) {
        Err(SpError::Configuration { identifier }) => assert_eq!(identifier, "median"),
        _ => panic!("expected a configuration error"),
    }
}
