//! Fixed-point scale shared by the whole library.
//!
//! A real number `x` is held as the integer `x * UNO`, rounded towards
//! zero.  Weights and attribute values lie in `[0, UNO]`; rates are
//! percentages and lie in `[0, CIEN]`.

use vstd::prelude::*;

verus! {

/// The number one.
pub const UNO: u64 = 1_000_000;

/// The relevance threshold, 0.2: a weight below it is pruned.
pub const UMBRAL: u64 = 200_000;

/// One hundred per cent.
pub const CIEN: u64 = 100_000_000;

/// The largest contribution of one attribute to a squared distance: `UNO` cubed.
pub const TERMINO_MAXIMO: u128 = 1_000_000_000_000_000_000;

/// Every component lies in `[0, UNO]`.
pub open spec fn a_escala(w: Seq<u64>) -> bool {
    forall|i: int| 0 <= i < w.len() ==> #[trigger] w[i] <= UNO
}

/// Every component is zero.
pub open spec fn todo_cero(w: Seq<u64>) -> bool {
    forall|i: int| 0 <= i < w.len() ==> #[trigger] w[i] == 0
}

/// The vector of `n` zeros.
pub open spec fn ceros(n: nat) -> Seq<u64> {
    Seq::new(n, |i: int| 0u64)
}

/// A vector whose components are all zero is the vector of zeros of its length.
pub proof fn lema_ceros(w: Seq<u64>)
    requires
        todo_cero(w),
    ensures
        w == ceros(w.len()),
{
    assert(w =~= ceros(w.len()));
}

/// Some component equals `UNO` and none exceeds it.
pub open spec fn normalizado(w: Seq<u64>) -> bool {
    a_escala(w) && exists|i: int| 0 <= i < w.len() && #[trigger] w[i] == UNO
}

/// Decides whether every component lies in `[0, UNO]`.
pub fn esta_a_escala(w: &[u64]) -> (b: bool)
    ensures
        b == a_escala(w@),
{
    let mut i: usize = 0;
    while i < w.len()
        invariant
            i <= w@.len(),
            forall|j: int| 0 <= j < i ==> #[trigger] w@[j] <= UNO,
        decreases w@.len() - i,
    {
        if w[i] > UNO {
            return false;
        }
        i += 1;
    }
    true
}

/// `x` confined to `[0, UNO]`.
pub open spec fn recortar_spec(x: int) -> int {
    if x < 0 {
        0
    } else if x > UNO {
        UNO as int
    } else {
        x
    }
}

/// Confines the sum of a weight and a signed step to `[0, UNO]`.
pub fn recortar_suma(base: u64, paso: i64) -> (r: u64)
    ensures
        r == recortar_spec(base + paso),
        r <= UNO,
{
    let suma: i128 = base as i128 + paso as i128;
    if suma < 0 {
        0
    } else if suma > UNO as i128 {
        UNO
    } else {
        suma as u64
    }
}

/// The percentage that `parte` is of `total`, rounded down; zero when `total` is zero.
pub open spec fn porcentaje_spec(parte: nat, total: nat) -> nat {
    if total == 0 {
        0
    } else {
        ((CIEN * parte) as int / (total as int)) as nat
    }
}

/// Computes `porcentaje_spec`.
pub fn porcentaje(parte: usize, total: usize) -> (r: u64)
    requires
        parte <= total,
    ensures
        r == porcentaje_spec(parte as nat, total as nat),
        r <= CIEN,
{
    if total == 0 {
        return 0;
    }
    let num: u128 = CIEN as u128 * parte as u128;
    let q: u128 = num / total as u128;
    proof {
        assert(CIEN * parte <= CIEN * total) by (nonlinear_arith)
            requires
                parte <= total,
        ;
        assert((CIEN * parte) / (total as int) <= CIEN) by (nonlinear_arith)
            requires
                CIEN * parte <= CIEN * total,
                total > 0,
        ;
    }
    q as u64
}

} // verus!
