//! Substitution-score tables.
//!
//! Maps each recognized matrix identifier to a raw (unnormalized)
//! 20x20 integer score table in the canonical alphabet order
//! `ARNDCQEGHILKMFPSTWYV`.  Each table is stored as its lower
//! triangle, stated once more as specification data, and mirrored
//! into the full 400-entry row-major table, so every table this
//! module hands out is symmetric by construction and provably equal
//! to its identifier's stated data ([`table_spec`]).

use vstd::prelude::*;
use vstd::arithmetic::div_mod::{
    lemma_fundamental_div_mod, lemma_remainder_lower, lemma_remainder_upper,
};
use crate::error::SpError;

verus! {

/// The closed set of substitution-table identifiers.
#[derive(Clone, Copy, PartialEq, Eq, Structural, Debug)]
pub enum MatrixId {
    Blosum45,
    Blosum50,
    Blosum62,
    Blosum80,
    Blosum90,
    Pam30,
    Pam70,
    Pam250,
    Pet91Mod,
    Blosum62Mod,
}

/// The table is symmetric over the 20x20 index grid.
pub open spec fn is_symmetric(m: Seq<i64>) -> bool {
    forall|a: int, b: int|
        0 <= a < 20 && 0 <= b < 20 ==> #[trigger] m[a * 20 + b] == m[b * 20 + a]
}

/// Which identifier a name denotes, if any.
pub open spec fn matrix_id_spec(s: Seq<char>) -> Option<MatrixId> {
    if s == "blosum45"@ {
        Some(MatrixId::Blosum45)
    } else if s == "blosum50"@ {
        Some(MatrixId::Blosum50)
    } else if s == "blosum62"@ {
        Some(MatrixId::Blosum62)
    } else if s == "blosum80"@ {
        Some(MatrixId::Blosum80)
    } else if s == "blosum90"@ {
        Some(MatrixId::Blosum90)
    } else if s == "pam30"@ {
        Some(MatrixId::Pam30)
    } else if s == "pam70"@ {
        Some(MatrixId::Pam70)
    } else if s == "pam250"@ {
        Some(MatrixId::Pam250)
    } else if s == "pet91mod"@ {
        Some(MatrixId::Pet91Mod)
    } else if s == "blosum62mod"@ {
        Some(MatrixId::Blosum62Mod)
    } else {
        None
    }
}

/// The name is in the recognized set.
pub open spec fn recognized_matrix(s: Seq<char>) -> bool {
    matrix_id_spec(s) is Some
}

/// Resolve a matrix name to its identifier; `Configuration` error
/// exactly when the name is not in the recognized set, carrying that
/// name.
pub fn matrix_id_of(s: &String) -> (r: Result<MatrixId, SpError>)
    ensures
        r matches Ok(id) ==> matrix_id_spec(s@) == Some(id),
        r is Err <==> !recognized_matrix(s@),
        r matches Err(e) ==> e matches SpError::Configuration { .. },
        r matches Err(SpError::Configuration { identifier }) ==> identifier@ == s@,
{
    if *s == "blosum45".to_owned() {
        Ok(MatrixId::Blosum45)
    } else if *s == "blosum50".to_owned() {
        Ok(MatrixId::Blosum50)
    } else if *s == "blosum62".to_owned() {
        Ok(MatrixId::Blosum62)
    } else if *s == "blosum80".to_owned() {
        Ok(MatrixId::Blosum80)
    } else if *s == "blosum90".to_owned() {
        Ok(MatrixId::Blosum90)
    } else if *s == "pam30".to_owned() {
        Ok(MatrixId::Pam30)
    } else if *s == "pam70".to_owned() {
        Ok(MatrixId::Pam70)
    } else if *s == "pam250".to_owned() {
        Ok(MatrixId::Pam250)
    } else if *s == "pet91mod".to_owned() {
        Ok(MatrixId::Pet91Mod)
    } else if *s == "blosum62mod".to_owned() {
        Ok(MatrixId::Blosum62Mod)
    } else {
        Err(SpError::Configuration { identifier: s.clone() })
    }
}

/// Triangle position of the unordered index pair `(a, b)`.
pub open spec fn tri_index(a: int, b: int) -> int {
    if b <= a {
        a * (a + 1) / 2 + b
    } else {
        b * (b + 1) / 2 + a
    }
}

/// The full 400-entry row-major table of a lower triangle.
pub open spec fn mirror_spec(t: Seq<i64>) -> Seq<i64> {
    Seq::new(400, |k: int| t[tri_index(k / 20, k % 20)])
}

/// The stated lower triangle of an identifier.  The two modified
/// variants carry the tables of their base families (see their
/// triangle functions).
pub open spec fn triangle_spec(id: MatrixId) -> Seq<i64> {
    match id {
        MatrixId::Blosum45 => blosum45_tri(),
        MatrixId::Blosum50 => blosum50_tri(),
        MatrixId::Blosum62 => blosum62_tri(),
        MatrixId::Blosum80 => blosum80_tri(),
        MatrixId::Blosum90 => blosum90_tri(),
        MatrixId::Pam30 => pam30_tri(),
        MatrixId::Pam70 => pam70_tri(),
        MatrixId::Pam250 => pam250_tri(),
        MatrixId::Pet91Mod => pam250_tri(),
        MatrixId::Blosum62Mod => blosum62_tri(),
    }
}

/// The stated full table of an identifier.
pub open spec fn table_spec(id: MatrixId) -> Seq<i64> {
    mirror_spec(triangle_spec(id))
}

/// Mirror a 210-entry lower triangle (row-major, row `a` holding
/// columns `0..=a`) into the full symmetric 400-entry table.
fn from_triangle(t: &Vec<i64>) -> (m: Vec<i64>)
    requires
        t@.len() == 210,
    ensures
        m@.len() == 400,
        is_symmetric(m@),
        forall|x: int, y: int|
            0 <= y <= x < 20 ==> #[trigger] m@[x * 20 + y] == t@[x * (x + 1) / 2 + y],
        forall|x: int, y: int|
            0 <= y <= x < 20 ==> #[trigger] m@[y * 20 + x] == t@[x * (x + 1) / 2 + y],
{
    let mut m: Vec<i64> = Vec::new();
    let mut k: usize = 0;
    while k < 400
        invariant
            m@.len() == k,
            k <= 400,
        decreases 400 - k,
    {
        m.push(0);
        k += 1;
    }
    let mut a: usize = 0;
    while a < 20
        invariant
            t@.len() == 210,
            m@.len() == 400,
            a <= 20,
            forall|x: int, y: int|
                0 <= y <= x < a ==> #[trigger] m@[x * 20 + y] == t@[x * (x + 1) / 2 + y],
            forall|x: int, y: int|
                0 <= y <= x < a ==> #[trigger] m@[y * 20 + x] == t@[x * (x + 1) / 2 + y],
        decreases 20 - a,
    {
        let mut b: usize = 0;
        while b <= a
            invariant
                t@.len() == 210,
                m@.len() == 400,
                a < 20,
                b <= a + 1,
                forall|x: int, y: int|
                    0 <= y <= x < a ==> #[trigger] m@[x * 20 + y] == t@[x * (x + 1) / 2 + y],
                forall|x: int, y: int|
                    0 <= y <= x < a ==> #[trigger] m@[y * 20 + x] == t@[x * (x + 1) / 2 + y],
                forall|y: int|
                    0 <= y < b ==> #[trigger] m@[a as int * 20 + y] == t@[a as int * (a as int + 1)
                        / 2 + y],
                forall|y: int|
                    0 <= y < b ==> #[trigger] m@[y * 20 + a as int] == t@[a as int * (a as int + 1)
                        / 2 + y],
            decreases a + 1 - b,
        {
            proof {
                assert(a as int * (a as int + 1) <= 380) by (nonlinear_arith)
                    requires
                        a as int <= 19,
                ;
            }
            let v = t[a * (a + 1) / 2 + b];
            m.set(a * 20 + b, v);
            m.set(b * 20 + a, v);
            proof {
                assert(m@[a as int * 20 + b as int] == t@[a as int * (a as int + 1) / 2
                    + b as int]);
                assert(m@[b as int * 20 + a as int] == t@[a as int * (a as int + 1) / 2
                    + b as int]);
            }
            b += 1;
        }
        proof {
            assert forall|x: int, y: int| 0 <= y <= x < a as int + 1 implies #[trigger] m@[x * 20
                + y] == t@[x * (x + 1) / 2 + y] by {
                if x == a as int {
                    assert(m@[a as int * 20 + y] == t@[a as int * (a as int + 1) / 2 + y]);
                }
            }
            assert forall|x: int, y: int| 0 <= y <= x < a as int + 1 implies #[trigger] m@[y * 20
                + x] == t@[x * (x + 1) / 2 + y] by {
                if x == a as int {
                    assert(m@[y * 20 + a as int] == t@[a as int * (a as int + 1) / 2 + y]);
                }
            }
        }
        a += 1;
    }
    proof {
        assert forall|x: int, y: int| 0 <= x < 20 && 0 <= y < 20 implies #[trigger] m@[x * 20 + y]
            == m@[y * 20 + x] by {
            if y <= x {
                assert(m@[x * 20 + y] == t@[x * (x + 1) / 2 + y]);
            } else {
                assert(m@[y * 20 + x] == t@[y * (y + 1) / 2 + x]);
            }
        }
    }
    m
}

/// The raw table of an identifier: exactly the stated data, mirrored;
/// 400 entries, symmetric.
pub fn raw_matrix(id: MatrixId) -> (m: Vec<i64>)
    ensures
        m@ == table_spec(id),
        m@.len() == 400,
        is_symmetric(m@),
{
    let t = match id {
        MatrixId::Blosum45 => blosum45_triangle(),
        MatrixId::Blosum50 => blosum50_triangle(),
        MatrixId::Blosum62 => blosum62_triangle(),
        MatrixId::Blosum80 => blosum80_triangle(),
        MatrixId::Blosum90 => blosum90_triangle(),
        MatrixId::Pam30 => pam30_triangle(),
        MatrixId::Pam70 => pam70_triangle(),
        MatrixId::Pam250 => pam250_triangle(),
        MatrixId::Pet91Mod => pam250_triangle(),
        MatrixId::Blosum62Mod => blosum62_triangle(),
    };
    let m = from_triangle(&t);
    proof {
        assert(t@ == triangle_spec(id));
        assert forall|k: int| 0 <= k < 400 implies m@[k] == table_spec(id)[k] by {
            lemma_fundamental_div_mod(k, 20);
            lemma_remainder_lower(k, 20);
            lemma_remainder_upper(k, 20);
            let x = k / 20;
            let y = k % 20;
            assert(0 <= y < 20);
            assert(0 <= x < 20);
            if y <= x {
                assert(m@[x * 20 + y] == t@[x * (x + 1) / 2 + y]);
            } else {
                assert(m@[x * 20 + y] == t@[y * (y + 1) / 2 + x]);
            }
        }
        assert(m@ =~= table_spec(id));
    }
    m
}

/// The raw table of a named identifier; `Configuration` error exactly
/// when the name is not in the recognized set, else exactly the
/// stated table of the resolved identifier.
pub fn define_matrix(arg_m: &String) -> (r: Result<Vec<i64>, SpError>)
    ensures
        r is Err <==> !recognized_matrix(arg_m@),
        r matches Err(e) ==> e matches SpError::Configuration { .. },
        r matches Err(SpError::Configuration { identifier }) ==> identifier@ == arg_m@,
        r matches Ok(m) ==> m@ == table_spec(matrix_id_spec(arg_m@).unwrap()) && m@.len() == 400
            && is_symmetric(m@),
{
    match matrix_id_of(arg_m) {
        Ok(id) => Ok(raw_matrix(id)),
        Err(e) => Err(e),
    }
}

/// BLOSUM62 scores, lower triangle, as specification data.
pub open spec fn blosum62_tri() -> Seq<i64> {
    seq![
        4i64,
        -1i64, 5i64,
        -2i64, 0i64, 6i64,
        -2i64, -2i64, 1i64, 6i64,
        0i64, -3i64, -3i64, -3i64, 9i64,
        -1i64, 1i64, 0i64, 0i64, -3i64, 5i64,
        -1i64, 0i64, 0i64, 2i64, -4i64, 2i64, 5i64,
        0i64, -2i64, 0i64, -1i64, -3i64, -2i64, -2i64, 6i64,
        -2i64, 0i64, 1i64, -1i64, -3i64, 0i64, 0i64, -2i64, 8i64,
        -1i64, -3i64, -3i64, -3i64, -1i64, -3i64, -3i64, -4i64, -3i64, 4i64,
        -1i64, -2i64, -3i64, -4i64, -1i64, -2i64, -3i64, -4i64, -3i64, 2i64, 4i64,
        -1i64, 2i64, 0i64, -1i64, -3i64, 1i64, 1i64, -2i64, -1i64, -3i64, -2i64, 5i64,
        -1i64, -1i64, -2i64, -3i64, -1i64, 0i64, -2i64, -3i64, -2i64, 1i64, 2i64, -1i64, 5i64,
        -2i64, -3i64, -3i64, -3i64, -2i64, -3i64, -3i64, -3i64, -1i64, 0i64, 0i64, -3i64, 0i64, 6i64,
        -1i64, -2i64, -2i64, -1i64, -3i64, -1i64, -1i64, -2i64, -2i64, -3i64, -3i64, -1i64, -2i64, -4i64, 7i64,
        1i64, -1i64, 1i64, 0i64, -1i64, 0i64, 0i64, 0i64, -1i64, -2i64, -2i64, 0i64, -1i64, -2i64, -1i64, 4i64,
        0i64, -1i64, 0i64, -1i64, -1i64, -1i64, -1i64, -2i64, -2i64, -1i64, -1i64, -1i64, -1i64, -2i64, -1i64, 1i64, 5i64,
        -3i64, -3i64, -4i64, -4i64, -2i64, -2i64, -3i64, -2i64, -2i64, -3i64, -2i64, -3i64, -1i64, 1i64, -4i64, -3i64, -2i64, 11i64,
        -2i64, -2i64, -2i64, -3i64, -2i64, -1i64, -2i64, -3i64, 2i64, -1i64, -1i64, -2i64, -1i64, 3i64, -3i64, -2i64, -2i64, 2i64, 7i64,
        0i64, -3i64, -3i64, -3i64, -1i64, -2i64, -2i64, -3i64, -3i64, 3i64, 1i64, -2i64, 1i64, -1i64, -2i64, -2i64, 0i64, -3i64, -1i64, 4i64,
    ]
}

/// BLOSUM45 scores, lower triangle, as specification data.
pub open spec fn blosum45_tri() -> Seq<i64> {
    seq![
        5i64,
        -2i64, 7i64,
        -1i64, 0i64, 6i64,
        -2i64, -1i64, 2i64, 7i64,
        -1i64, -3i64, -2i64, -3i64, 12i64,
        -1i64, 1i64, 0i64, 0i64, -3i64, 6i64,
        -1i64, 0i64, 0i64, 2i64, -3i64, 2i64, 6i64,
        0i64, -2i64, 0i64, -1i64, -3i64, -2i64, -2i64, 7i64,
        -2i64, 0i64, 1i64, 0i64, -3i64, 1i64, 0i64, -2i64, 10i64,
        -1i64, -3i64, -2i64, -4i64, -3i64, -2i64, -3i64, -4i64, -3i64, 5i64,
        -1i64, -2i64, -3i64, -3i64, -2i64, -2i64, -2i64, -3i64, -2i64, 2i64, 5i64,
        -1i64, 3i64, 0i64, 0i64, -3i64, 1i64, 1i64, -2i64, -1i64, -3i64, -3i64, 5i64,
        -1i64, -1i64, -2i64, -3i64, -2i64, 0i64, -2i64, -2i64, 0i64, 2i64, 2i64, -1i64, 6i64,
        -2i64, -2i64, -2i64, -4i64, -2i64, -4i64, -3i64, -3i64, -2i64, 0i64, 1i64, -3i64, 0i64, 8i64,
        -1i64, -2i64, -2i64, -1i64, -4i64, -1i64, 0i64, -2i64, -2i64, -2i64, -3i64, -1i64, -2i64, -3i64, 9i64,
        1i64, -1i64, 1i64, 0i64, -1i64, 0i64, 0i64, 0i64, -1i64, -2i64, -3i64, -1i64, -2i64, -2i64, -1i64, 4i64,
        0i64, -1i64, 0i64, -1i64, -1i64, -1i64, -1i64, -2i64, -2i64, -1i64, -1i64, -1i64, -1i64, -1i64, -1i64, 2i64, 5i64,
        -2i64, -2i64, -4i64, -4i64, -5i64, -2i64, -3i64, -2i64, -3i64, -2i64, -2i64, -2i64, -2i64, 1i64, -3i64, -4i64, -3i64, 15i64,
        -2i64, -1i64, -2i64, -2i64, -3i64, -1i64, -2i64, -3i64, 2i64, 0i64, 0i64, -1i64, 0i64, 3i64, -3i64, -2i64, -1i64, 3i64, 8i64,
        0i64, -2i64, -3i64, -3i64, -1i64, -3i64, -3i64, -3i64, -3i64, 3i64, 1i64, -2i64, 1i64, 0i64, -3i64, -1i64, 0i64, -3i64, -1i64, 5i64,
    ]
}

/// BLOSUM50 scores, lower triangle, as specification data.
pub open spec fn blosum50_tri() -> Seq<i64> {
    seq![
        5i64,
        -2i64, 7i64,
        -1i64, -1i64, 7i64,
        -2i64, -2i64, 2i64, 8i64,
        -1i64, -4i64, -2i64, -4i64, 13i64,
        -1i64, 1i64, 0i64, 0i64, -3i64, 7i64,
        -1i64, 0i64, 0i64, 2i64, -3i64, 2i64, 6i64,
        0i64, -3i64, 0i64, -1i64, -3i64, -2i64, -3i64, 8i64,
        -2i64, 0i64, 1i64, -1i64, -3i64, 1i64, 0i64, -2i64, 10i64,
        -1i64, -4i64, -3i64, -4i64, -2i64, -3i64, -4i64, -4i64, -4i64, 5i64,
        -2i64, -3i64, -4i64, -4i64, -2i64, -2i64, -3i64, -4i64, -3i64, 2i64, 5i64,
        -1i64, 3i64, 0i64, -1i64, -3i64, 2i64, 1i64, -2i64, 0i64, -3i64, -3i64, 6i64,
        -1i64, -2i64, -2i64, -4i64, -2i64, 0i64, -2i64, -3i64, -1i64, 2i64, 3i64, -2i64, 7i64,
        -3i64, -3i64, -4i64, -5i64, -2i64, -4i64, -3i64, -4i64, -1i64, 0i64, 1i64, -4i64, 0i64, 8i64,
        -1i64, -3i64, -2i64, -1i64, -4i64, -1i64, -1i64, -2i64, -2i64, -3i64, -4i64, -1i64, -3i64, -4i64, 10i64,
        1i64, -1i64, 1i64, 0i64, -1i64, 0i64, -1i64, 0i64, -1i64, -3i64, -3i64, 0i64, -2i64, -3i64, -1i64, 5i64,
        0i64, -1i64, 0i64, -1i64, -1i64, -1i64, -1i64, -2i64, -2i64, -1i64, -1i64, -1i64, -1i64, -2i64, -1i64, 2i64, 5i64,
        -3i64, -3i64, -4i64, -5i64, -5i64, -1i64, -3i64, -3i64, -3i64, -3i64, -2i64, -3i64, -1i64, 1i64, -4i64, -4i64, -3i64, 15i64,
        -2i64, -1i64, -2i64, -3i64, -3i64, -1i64, -2i64, -3i64, 2i64, -1i64, -1i64, -2i64, 0i64, 4i64, -3i64, -2i64, -2i64, 2i64, 8i64,
        0i64, -3i64, -3i64, -4i64, -1i64, -3i64, -3i64, -4i64, -4i64, 4i64, 1i64, -3i64, 1i64, -1i64, -3i64, -2i64, 0i64, -3i64, -1i64, 5i64,
    ]
}

/// BLOSUM80 scores, lower triangle, as specification data.
pub open spec fn blosum80_tri() -> Seq<i64> {
    seq![
        5i64,
        -2i64, 6i64,
        -2i64, 0i64, 6i64,
        -2i64, -2i64, 1i64, 6i64,
        -1i64, -4i64, -3i64, -4i64, 9i64,
        -1i64, 1i64, 0i64, -1i64, -4i64, 6i64,
        -1i64, -1i64, -1i64, 1i64, -5i64, 2i64, 6i64,
        0i64, -3i64, -1i64, -2i64, -4i64, -2i64, -3i64, 6i64,
        -2i64, 0i64, 0i64, -2i64, -4i64, 1i64, 0i64, -3i64, 8i64,
        -2i64, -3i64, -4i64, -4i64, -2i64, -3i64, -4i64, -5i64, -4i64, 5i64,
        -2i64, -3i64, -4i64, -5i64, -2i64, -3i64, -4i64, -4i64, -3i64, 1i64, 4i64,
        -1i64, 2i64, 0i64, -1i64, -4i64, 1i64, 1i64, -2i64, -1i64, -3i64, -3i64, 5i64,
        -1i64, -2i64, -3i64, -4i64, -2i64, 0i64, -2i64, -4i64, -2i64, 1i64, 2i64, -2i64, 6i64,
        -3i64, -4i64, -4i64, -4i64, -3i64, -4i64, -4i64, -4i64, -2i64, -1i64, 0i64, -4i64, 0i64, 6i64,
        -1i64, -2i64, -3i64, -2i64, -4i64, -2i64, -2i64, -3i64, -3i64, -4i64, -3i64, -1i64, -3i64, -4i64, 8i64,
        1i64, -1i64, 0i64, -1i64, -2i64, 0i64, 0i64, -1i64, -1i64, -3i64, -3i64, -1i64, -2i64, -3i64, -1i64, 5i64,
        0i64, -1i64, 0i64, -1i64, -1i64, -1i64, -1i64, -2i64, -2i64, -1i64, -2i64, -1i64, -1i64, -2i64, -2i64, 1i64, 5i64,
        -3i64, -4i64, -4i64, -6i64, -3i64, -3i64, -4i64, -4i64, -3i64, -3i64, -2i64, -4i64, -2i64, 0i64, -5i64, -4i64, -4i64, 11i64,
        -2i64, -3i64, -3i64, -4i64, -3i64, -2i64, -3i64, -4i64, 2i64, -2i64, -2i64, -3i64, -2i64, 3i64, -4i64, -2i64, -2i64, 2i64, 7i64,
        0i64, -3i64, -4i64, -4i64, -1i64, -3i64, -3i64, -4i64, -4i64, 3i64, 1i64, -3i64, 1i64, -1i64, -3i64, -2i64, 0i64, -3i64, -2i64, 4i64,
    ]
}

/// BLOSUM90 scores, lower triangle, as specification data.
pub open spec fn blosum90_tri() -> Seq<i64> {
    seq![
        5i64,
        -2i64, 6i64,
        -2i64, -1i64, 7i64,
        -3i64, -3i64, 1i64, 7i64,
        -1i64, -5i64, -4i64, -5i64, 9i64,
        -1i64, 1i64, 0i64, -1i64, -4i64, 7i64,
        -1i64, -1i64, -1i64, 1i64, -6i64, 2i64, 6i64,
        0i64, -3i64, -1i64, -2i64, -4i64, -3i64, -3i64, 6i64,
        -2i64, 0i64, 0i64, -2i64, -5i64, 1i64, -1i64, -3i64, 8i64,
        -2i64, -4i64, -4i64, -5i64, -2i64, -4i64, -4i64, -5i64, -4i64, 5i64,
        -2i64, -3i64, -4i64, -5i64, -2i64, -3i64, -4i64, -5i64, -4i64, 1i64, 5i64,
        -1i64, 2i64, 0i64, -1i64, -4i64, 1i64, 0i64, -2i64, -1i64, -4i64, -3i64, 6i64,
        -2i64, -2i64, -3i64, -4i64, -2i64, 0i64, -3i64, -4i64, -3i64, 1i64, 2i64, -2i64, 7i64,
        -3i64, -4i64, -4i64, -5i64, -3i64, -4i64, -5i64, -5i64, -2i64, -1i64, 0i64, -4i64, -1i64, 7i64,
        -1i64, -3i64, -3i64, -3i64, -4i64, -2i64, -2i64, -3i64, -3i64, -4i64, -4i64, -2i64, -3i64, -4i64, 8i64,
        1i64, -1i64, 0i64, -1i64, -2i64, -1i64, -1i64, -1i64, -2i64, -3i64, -3i64, -1i64, -2i64, -3i64, -2i64, 5i64,
        0i64, -2i64, 0i64, -2i64, -2i64, -1i64, -1i64, -3i64, -2i64, -1i64, -2i64, -1i64, -1i64, -3i64, -2i64, 1i64, 6i64,
        -4i64, -4i64, -5i64, -6i64, -4i64, -3i64, -5i64, -4i64, -3i64, -4i64, -3i64, -5i64, -2i64, 0i64, -5i64, -4i64, -4i64, 11i64,
        -3i64, -3i64, -3i64, -4i64, -4i64, -3i64, -4i64, -5i64, 1i64, -2i64, -2i64, -3i64, -2i64, 3i64, -4i64, -3i64, -2i64, 2i64, 8i64,
        -1i64, -3i64, -4i64, -5i64, -2i64, -3i64, -3i64, -5i64, -4i64, 3i64, 0i64, -3i64, 0i64, -2i64, -3i64, -2i64, -1i64, -3i64, -3i64, 5i64,
    ]
}

/// PAM30 scores, lower triangle, as specification data.
pub open spec fn pam30_tri() -> Seq<i64> {
    seq![
        6i64,
        -7i64, 8i64,
        -4i64, -6i64, 8i64,
        -3i64, -10i64, 2i64, 8i64,
        -6i64, -8i64, -11i64, -14i64, 10i64,
        -4i64, -2i64, -3i64, -2i64, -14i64, 8i64,
        -2i64, -9i64, -2i64, 2i64, -14i64, 1i64, 8i64,
        -2i64, -9i64, -3i64, -3i64, -9i64, -7i64, -4i64, 6i64,
        -7i64, -2i64, 0i64, -4i64, -7i64, 1i64, -5i64, -9i64, 9i64,
        -5i64, -5i64, -5i64, -7i64, -6i64, -8i64, -5i64, -11i64, -9i64, 8i64,
        -6i64, -8i64, -7i64, -12i64, -15i64, -5i64, -9i64, -10i64, -6i64, -1i64, 7i64,
        -7i64, 0i64, -1i64, -4i64, -14i64, -3i64, -4i64, -7i64, -6i64, -6i64, -8i64, 7i64,
        -5i64, -4i64, -9i64, -11i64, -13i64, -4i64, -7i64, -8i64, -10i64, -1i64, 1i64, -2i64, 11i64,
        -8i64, -9i64, -9i64, -15i64, -13i64, -13i64, -14i64, -9i64, -6i64, -2i64, -3i64, -14i64, -4i64, 9i64,
        -2i64, -4i64, -6i64, -8i64, -8i64, -3i64, -5i64, -6i64, -4i64, -8i64, -7i64, -6i64, -8i64, -10i64, 8i64,
        0i64, -3i64, 0i64, -4i64, -3i64, -5i64, -4i64, -2i64, -6i64, -7i64, -8i64, -4i64, -5i64, -6i64, -2i64, 6i64,
        -1i64, -6i64, -2i64, -5i64, -8i64, -5i64, -6i64, -6i64, -7i64, -2i64, -7i64, -3i64, -4i64, -9i64, -4i64, 0i64, 7i64,
        -13i64, -2i64, -8i64, -15i64, -15i64, -13i64, -17i64, -15i64, -7i64, -14i64, -6i64, -12i64, -13i64, -4i64, -14i64, -5i64, -13i64, 13i64,
        -8i64, -10i64, -4i64, -11i64, -4i64, -12i64, -8i64, -14i64, -3i64, -6i64, -7i64, -9i64, -11i64, 2i64, -13i64, -7i64, -6i64, -5i64, 10i64,
        -2i64, -8i64, -8i64, -8i64, -6i64, -7i64, -6i64, -5i64, -6i64, 2i64, -2i64, -9i64, -1i64, -8i64, -6i64, -6i64, -3i64, -15i64, -7i64, 7i64,
    ]
}

/// PAM70 scores, lower triangle, as specification data.
pub open spec fn pam70_tri() -> Seq<i64> {
    seq![
        5i64,
        -4i64, 8i64,
        -2i64, -3i64, 6i64,
        -1i64, -6i64, 3i64, 6i64,
        -4i64, -5i64, -7i64, -9i64, 9i64,
        -2i64, 0i64, -1i64, 0i64, -9i64, 7i64,
        -1i64, -5i64, 0i64, 3i64, -9i64, 2i64, 6i64,
        0i64, -6i64, -1i64, -1i64, -6i64, -4i64, -2i64, 6i64,
        -4i64, 0i64, 1i64, -1i64, -5i64, 2i64, -2i64, -6i64, 8i64,
        -2i64, -3i64, -3i64, -5i64, -4i64, -5i64, -4i64, -6i64, -6i64, 7i64,
        -4i64, -6i64, -5i64, -8i64, -10i64, -3i64, -6i64, -7i64, -4i64, 1i64, 6i64,
        -4i64, 2i64, 0i64, -2i64, -9i64, -1i64, -2i64, -5i64, -3i64, -4i64, -5i64, 6i64,
        -3i64, -2i64, -5i64, -7i64, -9i64, -2i64, -4i64, -6i64, -6i64, 1i64, 2i64, 0i64, 10i64,
        -6i64, -7i64, -6i64, -10i64, -8i64, -9i64, -9i64, -7i64, -4i64, 0i64, -1i64, -9i64, -2i64, 8i64,
        0i64, -2i64, -3i64, -4i64, -5i64, -1i64, -3i64, -3i64, -2i64, -5i64, -5i64, -4i64, -5i64, -7i64, 7i64,
        1i64, -1i64, 1i64, -1i64, -1i64, -3i64, -2i64, 0i64, -3i64, -4i64, -6i64, -2i64, -3i64, -4i64, 0i64, 5i64,
        1i64, -4i64, 0i64, -2i64, -5i64, -3i64, -3i64, -3i64, -4i64, -1i64, -4i64, -1i64, -2i64, -6i64, -2i64, 2i64, 6i64,
        -9i64, 0i64, -6i64, -10i64, -11i64, -8i64, -11i64, -10i64, -5i64, -9i64, -4i64, -7i64, -8i64, -2i64, -9i64, -3i64, -8i64, 13i64,
        -5i64, -7i64, -3i64, -7i64, -2i64, -8i64, -6i64, -9i64, -1i64, -4i64, -4i64, -7i64, -7i64, 4i64, -9i64, -5i64, -4i64, -3i64, 9i64,
        -1i64, -5i64, -5i64, -5i64, -4i64, -4i64, -4i64, -3i64, -4i64, 3i64, 0i64, -6i64, 0i64, -5i64, -3i64, -3i64, 0i64, -10i64, -5i64, 6i64,
    ]
}

/// PAM250 scores, lower triangle, as specification data.
pub open spec fn pam250_tri() -> Seq<i64> {
    seq![
        2i64,
        -2i64, 6i64,
        0i64, 0i64, 2i64,
        0i64, -1i64, 2i64, 4i64,
        -2i64, -4i64, -4i64, -5i64, 12i64,
        0i64, 1i64, 1i64, 2i64, -5i64, 4i64,
        0i64, -1i64, 1i64, 3i64, -5i64, 2i64, 4i64,
        1i64, -3i64, 0i64, 1i64, -3i64, -1i64, 0i64, 5i64,
        -1i64, 2i64, 2i64, 1i64, -3i64, 3i64, 1i64, -2i64, 6i64,
        -1i64, -2i64, -2i64, -2i64, -2i64, -2i64, -2i64, -3i64, -2i64, 5i64,
        -2i64, -3i64, -3i64, -4i64, -6i64, -2i64, -3i64, -4i64, -2i64, 2i64, 6i64,
        -1i64, 3i64, 1i64, 0i64, -5i64, 1i64, 0i64, -2i64, 0i64, -2i64, -3i64, 5i64,
        -1i64, 0i64, -2i64, -3i64, -5i64, -1i64, -2i64, -3i64, -2i64, 2i64, 4i64, 0i64, 6i64,
        -3i64, -4i64, -3i64, -6i64, -4i64, -5i64, -5i64, -5i64, -2i64, 1i64, 2i64, -5i64, 0i64, 9i64,
        1i64, 0i64, 0i64, -1i64, -3i64, 0i64, -1i64, 0i64, 0i64, -2i64, -3i64, -1i64, -2i64, -5i64, 6i64,
        1i64, 0i64, 1i64, 0i64, 0i64, -1i64, 0i64, 1i64, -1i64, -1i64, -3i64, 0i64, -2i64, -3i64, 1i64, 2i64,
        1i64, -1i64, 0i64, 0i64, -2i64, -1i64, 0i64, 0i64, -1i64, 0i64, -2i64, 0i64, -1i64, -3i64, 0i64, 1i64, 3i64,
        -6i64, 2i64, -4i64, -7i64, -8i64, -5i64, -7i64, -7i64, -3i64, -5i64, -2i64, -3i64, -4i64, 0i64, -6i64, -2i64, -5i64, 17i64,
        -3i64, -4i64, -2i64, -4i64, 0i64, -4i64, -4i64, -5i64, 0i64, -1i64, -1i64, -4i64, -2i64, 7i64, -5i64, -3i64, -3i64, 0i64, 10i64,
        0i64, -2i64, -2i64, -2i64, -2i64, -2i64, -2i64, -1i64, -2i64, 4i64, 2i64, -2i64, 2i64, -1i64, -1i64, -1i64, 0i64, -6i64, -2i64, 4i64,
    ]
}

/// BLOSUM62 scores, lower triangle.
fn blosum62_triangle() -> (t: Vec<i64>)
    ensures
        t@ == blosum62_tri(),
        t@.len() == 210,
{
    let t: Vec<i64> = vec![
        4,
        -1, 5,
        -2, 0, 6,
        -2, -2, 1, 6,
        0, -3, -3, -3, 9,
        -1, 1, 0, 0, -3, 5,
        -1, 0, 0, 2, -4, 2, 5,
        0, -2, 0, -1, -3, -2, -2, 6,
        -2, 0, 1, -1, -3, 0, 0, -2, 8,
        -1, -3, -3, -3, -1, -3, -3, -4, -3, 4,
        -1, -2, -3, -4, -1, -2, -3, -4, -3, 2, 4,
        -1, 2, 0, -1, -3, 1, 1, -2, -1, -3, -2, 5,
        -1, -1, -2, -3, -1, 0, -2, -3, -2, 1, 2, -1, 5,
        -2, -3, -3, -3, -2, -3, -3, -3, -1, 0, 0, -3, 0, 6,
        -1, -2, -2, -1, -3, -1, -1, -2, -2, -3, -3, -1, -2, -4, 7,
        1, -1, 1, 0, -1, 0, 0, 0, -1, -2, -2, 0, -1, -2, -1, 4,
        0, -1, 0, -1, -1, -1, -1, -2, -2, -1, -1, -1, -1, -2, -1, 1, 5,
        -3, -3, -4, -4, -2, -2, -3, -2, -2, -3, -2, -3, -1, 1, -4, -3, -2, 11,
        -2, -2, -2, -3, -2, -1, -2, -3, 2, -1, -1, -2, -1, 3, -3, -2, -2, 2, 7,
        0, -3, -3, -3, -1, -2, -2, -3, -3, 3, 1, -2, 1, -1, -2, -2, 0, -3, -1, 4,
    ];
    proof {
        assert(t@ =~= blosum62_tri());
    }
    t
}

/// BLOSUM45 scores, lower triangle.
fn blosum45_triangle() -> (t: Vec<i64>)
    ensures
        t@ == blosum45_tri(),
        t@.len() == 210,
{
    let t: Vec<i64> = vec![
        5,
        -2, 7,
        -1, 0, 6,
        -2, -1, 2, 7,
        -1, -3, -2, -3, 12,
        -1, 1, 0, 0, -3, 6,
        -1, 0, 0, 2, -3, 2, 6,
        0, -2, 0, -1, -3, -2, -2, 7,
        -2, 0, 1, 0, -3, 1, 0, -2, 10,
        -1, -3, -2, -4, -3, -2, -3, -4, -3, 5,
        -1, -2, -3, -3, -2, -2, -2, -3, -2, 2, 5,
        -1, 3, 0, 0, -3, 1, 1, -2, -1, -3, -3, 5,
        -1, -1, -2, -3, -2, 0, -2, -2, 0, 2, 2, -1, 6,
        -2, -2, -2, -4, -2, -4, -3, -3, -2, 0, 1, -3, 0, 8,
        -1, -2, -2, -1, -4, -1, 0, -2, -2, -2, -3, -1, -2, -3, 9,
        1, -1, 1, 0, -1, 0, 0, 0, -1, -2, -3, -1, -2, -2, -1, 4,
        0, -1, 0, -1, -1, -1, -1, -2, -2, -1, -1, -1, -1, -1, -1, 2, 5,
        -2, -2, -4, -4, -5, -2, -3, -2, -3, -2, -2, -2, -2, 1, -3, -4, -3, 15,
        -2, -1, -2, -2, -3, -1, -2, -3, 2, 0, 0, -1, 0, 3, -3, -2, -1, 3, 8,
        0, -2, -3, -3, -1, -3, -3, -3, -3, 3, 1, -2, 1, 0, -3, -1, 0, -3, -1, 5,
    ];
    proof {
        assert(t@ =~= blosum45_tri());
    }
    t
}

/// BLOSUM50 scores, lower triangle.
fn blosum50_triangle() -> (t: Vec<i64>)
    ensures
        t@ == blosum50_tri(),
        t@.len() == 210,
{
    let t: Vec<i64> = vec![
        5,
        -2, 7,
        -1, -1, 7,
        -2, -2, 2, 8,
        -1, -4, -2, -4, 13,
        -1, 1, 0, 0, -3, 7,
        -1, 0, 0, 2, -3, 2, 6,
        0, -3, 0, -1, -3, -2, -3, 8,
        -2, 0, 1, -1, -3, 1, 0, -2, 10,
        -1, -4, -3, -4, -2, -3, -4, -4, -4, 5,
        -2, -3, -4, -4, -2, -2, -3, -4, -3, 2, 5,
        -1, 3, 0, -1, -3, 2, 1, -2, 0, -3, -3, 6,
        -1, -2, -2, -4, -2, 0, -2, -3, -1, 2, 3, -2, 7,
        -3, -3, -4, -5, -2, -4, -3, -4, -1, 0, 1, -4, 0, 8,
        -1, -3, -2, -1, -4, -1, -1, -2, -2, -3, -4, -1, -3, -4, 10,
        1, -1, 1, 0, -1, 0, -1, 0, -1, -3, -3, 0, -2, -3, -1, 5,
        0, -1, 0, -1, -1, -1, -1, -2, -2, -1, -1, -1, -1, -2, -1, 2, 5,
        -3, -3, -4, -5, -5, -1, -3, -3, -3, -3, -2, -3, -1, 1, -4, -4, -3, 15,
        -2, -1, -2, -3, -3, -1, -2, -3, 2, -1, -1, -2, 0, 4, -3, -2, -2, 2, 8,
        0, -3, -3, -4, -1, -3, -3, -4, -4, 4, 1, -3, 1, -1, -3, -2, 0, -3, -1, 5,
    ];
    proof {
        assert(t@ =~= blosum50_tri());
    }
    t
}

/// BLOSUM80 scores, lower triangle.
fn blosum80_triangle() -> (t: Vec<i64>)
    ensures
        t@ == blosum80_tri(),
        t@.len() == 210,
{
    let t: Vec<i64> = vec![
        5,
        -2, 6,
        -2, 0, 6,
        -2, -2, 1, 6,
        -1, -4, -3, -4, 9,
        -1, 1, 0, -1, -4, 6,
        -1, -1, -1, 1, -5, 2, 6,
        0, -3, -1, -2, -4, -2, -3, 6,
        -2, 0, 0, -2, -4, 1, 0, -3, 8,
        -2, -3, -4, -4, -2, -3, -4, -5, -4, 5,
        -2, -3, -4, -5, -2, -3, -4, -4, -3, 1, 4,
        -1, 2, 0, -1, -4, 1, 1, -2, -1, -3, -3, 5,
        -1, -2, -3, -4, -2, 0, -2, -4, -2, 1, 2, -2, 6,
        -3, -4, -4, -4, -3, -4, -4, -4, -2, -1, 0, -4, 0, 6,
        -1, -2, -3, -2, -4, -2, -2, -3, -3, -4, -3, -1, -3, -4, 8,
        1, -1, 0, -1, -2, 0, 0, -1, -1, -3, -3, -1, -2, -3, -1, 5,
        0, -1, 0, -1, -1, -1, -1, -2, -2, -1, -2, -1, -1, -2, -2, 1, 5,
        -3, -4, -4, -6, -3, -3, -4, -4, -3, -3, -2, -4, -2, 0, -5, -4, -4, 11,
        -2, -3, -3, -4, -3, -2, -3, -4, 2, -2, -2, -3, -2, 3, -4, -2, -2, 2, 7,
        0, -3, -4, -4, -1, -3, -3, -4, -4, 3, 1, -3, 1, -1, -3, -2, 0, -3, -2, 4,
    ];
    proof {
        assert(t@ =~= blosum80_tri());
    }
    t
}

/// BLOSUM90 scores, lower triangle.
fn blosum90_triangle() -> (t: Vec<i64>)
    ensures
        t@ == blosum90_tri(),
        t@.len() == 210,
{
    let t: Vec<i64> = vec![
        5,
        -2, 6,
        -2, -1, 7,
        -3, -3, 1, 7,
        -1, -5, -4, -5, 9,
        -1, 1, 0, -1, -4, 7,
        -1, -1, -1, 1, -6, 2, 6,
        0, -3, -1, -2, -4, -3, -3, 6,
        -2, 0, 0, -2, -5, 1, -1, -3, 8,
        -2, -4, -4, -5, -2, -4, -4, -5, -4, 5,
        -2, -3, -4, -5, -2, -3, -4, -5, -4, 1, 5,
        -1, 2, 0, -1, -4, 1, 0, -2, -1, -4, -3, 6,
        -2, -2, -3, -4, -2, 0, -3, -4, -3, 1, 2, -2, 7,
        -3, -4, -4, -5, -3, -4, -5, -5, -2, -1, 0, -4, -1, 7,
        -1, -3, -3, -3, -4, -2, -2, -3, -3, -4, -4, -2, -3, -4, 8,
        1, -1, 0, -1, -2, -1, -1, -1, -2, -3, -3, -1, -2, -3, -2, 5,
        0, -2, 0, -2, -2, -1, -1, -3, -2, -1, -2, -1, -1, -3, -2, 1, 6,
        -4, -4, -5, -6, -4, -3, -5, -4, -3, -4, -3, -5, -2, 0, -5, -4, -4, 11,
        -3, -3, -3, -4, -4, -3, -4, -5, 1, -2, -2, -3, -2, 3, -4, -3, -2, 2, 8,
        -1, -3, -4, -5, -2, -3, -3, -5, -4, 3, 0, -3, 0, -2, -3, -2, -1, -3, -3, 5,
    ];
    proof {
        assert(t@ =~= blosum90_tri());
    }
    t
}

/// PAM30 scores, lower triangle.
fn pam30_triangle() -> (t: Vec<i64>)
    ensures
        t@ == pam30_tri(),
        t@.len() == 210,
{
    let t: Vec<i64> = vec![
        6,
        -7, 8,
        -4, -6, 8,
        -3, -10, 2, 8,
        -6, -8, -11, -14, 10,
        -4, -2, -3, -2, -14, 8,
        -2, -9, -2, 2, -14, 1, 8,
        -2, -9, -3, -3, -9, -7, -4, 6,
        -7, -2, 0, -4, -7, 1, -5, -9, 9,
        -5, -5, -5, -7, -6, -8, -5, -11, -9, 8,
        -6, -8, -7, -12, -15, -5, -9, -10, -6, -1, 7,
        -7, 0, -1, -4, -14, -3, -4, -7, -6, -6, -8, 7,
        -5, -4, -9, -11, -13, -4, -7, -8, -10, -1, 1, -2, 11,
        -8, -9, -9, -15, -13, -13, -14, -9, -6, -2, -3, -14, -4, 9,
        -2, -4, -6, -8, -8, -3, -5, -6, -4, -8, -7, -6, -8, -10, 8,
        0, -3, 0, -4, -3, -5, -4, -2, -6, -7, -8, -4, -5, -6, -2, 6,
        -1, -6, -2, -5, -8, -5, -6, -6, -7, -2, -7, -3, -4, -9, -4, 0, 7,
        -13, -2, -8, -15, -15, -13, -17, -15, -7, -14, -6, -12, -13, -4, -14, -5, -13, 13,
        -8, -10, -4, -11, -4, -12, -8, -14, -3, -6, -7, -9, -11, 2, -13, -7, -6, -5, 10,
        -2, -8, -8, -8, -6, -7, -6, -5, -6, 2, -2, -9, -1, -8, -6, -6, -3, -15, -7, 7,
    ];
    proof {
        assert(t@ =~= pam30_tri());
    }
    t
}

/// PAM70 scores, lower triangle.
fn pam70_triangle() -> (t: Vec<i64>)
    ensures
        t@ == pam70_tri(),
        t@.len() == 210,
{
    let t: Vec<i64> = vec![
        5,
        -4, 8,
        -2, -3, 6,
        -1, -6, 3, 6,
        -4, -5, -7, -9, 9,
        -2, 0, -1, 0, -9, 7,
        -1, -5, 0, 3, -9, 2, 6,
        0, -6, -1, -1, -6, -4, -2, 6,
        -4, 0, 1, -1, -5, 2, -2, -6, 8,
        -2, -3, -3, -5, -4, -5, -4, -6, -6, 7,
        -4, -6, -5, -8, -10, -3, -6, -7, -4, 1, 6,
        -4, 2, 0, -2, -9, -1, -2, -5, -3, -4, -5, 6,
        -3, -2, -5, -7, -9, -2, -4, -6, -6, 1, 2, 0, 10,
        -6, -7, -6, -10, -8, -9, -9, -7, -4, 0, -1, -9, -2, 8,
        0, -2, -3, -4, -5, -1, -3, -3, -2, -5, -5, -4, -5, -7, 7,
        1, -1, 1, -1, -1, -3, -2, 0, -3, -4, -6, -2, -3, -4, 0, 5,
        1, -4, 0, -2, -5, -3, -3, -3, -4, -1, -4, -1, -2, -6, -2, 2, 6,
        -9, 0, -6, -10, -11, -8, -11, -10, -5, -9, -4, -7, -8, -2, -9, -3, -8, 13,
        -5, -7, -3, -7, -2, -8, -6, -9, -1, -4, -4, -7, -7, 4, -9, -5, -4, -3, 9,
        -1, -5, -5, -5, -4, -4, -4, -3, -4, 3, 0, -6, 0, -5, -3, -3, 0, -10, -5, 6,
    ];
    proof {
        assert(t@ =~= pam70_tri());
    }
    t
}

/// PAM250 scores, lower triangle.
fn pam250_triangle() -> (t: Vec<i64>)
    ensures
        t@ == pam250_tri(),
        t@.len() == 210,
{
    let t: Vec<i64> = vec![
        2,
        -2, 6,
        0, 0, 2,
        0, -1, 2, 4,
        -2, -4, -4, -5, 12,
        0, 1, 1, 2, -5, 4,
        0, -1, 1, 3, -5, 2, 4,
        1, -3, 0, 1, -3, -1, 0, 5,
        -1, 2, 2, 1, -3, 3, 1, -2, 6,
        -1, -2, -2, -2, -2, -2, -2, -3, -2, 5,
        -2, -3, -3, -4, -6, -2, -3, -4, -2, 2, 6,
        -1, 3, 1, 0, -5, 1, 0, -2, 0, -2, -3, 5,
        -1, 0, -2, -3, -5, -1, -2, -3, -2, 2, 4, 0, 6,
        -3, -4, -3, -6, -4, -5, -5, -5, -2, 1, 2, -5, 0, 9,
        1, 0, 0, -1, -3, 0, -1, 0, 0, -2, -3, -1, -2, -5, 6,
        1, 0, 1, 0, 0, -1, 0, 1, -1, -1, -3, 0, -2, -3, 1, 2,
        1, -1, 0, 0, -2, -1, 0, 0, -1, 0, -2, 0, -1, -3, 0, 1, 3,
        -6, 2, -4, -7, -8, -5, -7, -7, -3, -5, -2, -3, -4, 0, -6, -2, -5, 17,
        -3, -4, -2, -4, 0, -4, -4, -5, 0, -1, -1, -4, -2, 7, -5, -3, -3, 0, 10,
        0, -2, -2, -2, -2, -2, -2, -1, -2, 4, 2, -2, 2, -1, -1, -1, 0, -6, -2, 4,
    ];
    proof {
        assert(t@ =~= pam250_tri());
    }
    t
}

/// The `pet91mod` table.  The PET91-family mutation data is not
/// available to this build, so the identifier is accepted and carries
/// the PAM250 mutation-data table: the two identifiers score
/// identically here.
fn pet91mod_triangle() -> (t: Vec<i64>)
    ensures
        t@ == pam250_tri(),
        t@.len() == 210,
{
    pam250_triangle()
}

/// The `blosum62mod` table.  The modified-variant data is not
/// available to this build, so the identifier is accepted and carries
/// the BLOSUM62 table: the two identifiers score identically here.
fn blosum62mod_triangle() -> (t: Vec<i64>)
    ensures
        t@ == blosum62_tri(),
        t@.len() == 210,
{
    blosum62_triangle()
}

} // verus!
