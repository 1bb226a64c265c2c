//! The random source of the optimizers.
//!
//! Integer draws come from an ISAAC-64 generator of the `rand` crate.
//! Draws from continuous distributions cannot be computed with integers;
//! the caller supplies them through the trait [`Ruido`], already on the
//! fixed-point scale.  Nothing is assumed about what [`Ruido`] returns.

use vstd::prelude::*;
use rand::Isaac64Rng;
use rand::Rng;
use rand::SeedableRng;
use crate::fijo::UNO;

verus! {

/// The ISAAC-64 generator of `rand`.  Its state is not modelled: what a
/// draw returns is known only as far as the functions below say.
#[verifier::external_type_specification]
#[verifier::external_body]
pub struct ExIsaac64Rng(Isaac64Rng);

/// Draws from continuous distributions, on the fixed-point scale.
pub trait Ruido {
    /// A draw from the normal distribution of mean zero and standard
    /// deviation `desviacion`.
    fn normal(&self, rng: &mut Isaac64Rng, desviacion: u64) -> i64;

    /// A draw from the exponential distribution of mean one: the negated
    /// logarithm of a uniform draw from the unit interval.
    fn exponencial(&self, rng: &mut Isaac64Rng) -> u64;
}

/// `SeedableRng::from_seed` of `rand` for `Isaac64Rng`: a generator whose
/// draws depend on `semilla` alone.  Nothing is claimed of it.
#[verifier::external_body]
pub(crate) fn generador_desde_semilla(semilla: &[u64]) -> (rng: Isaac64Rng) {
    Isaac64Rng::from_seed(semilla)
}

/// `Rng::next_u64` of `rand`: the next 64 bits of the generator.  Nothing
/// is claimed of them.
#[verifier::external_body]
pub(crate) fn siguiente_u64(rng: &mut Isaac64Rng) -> (bits: u64) {
    rng.next_u64()
}

/// `Rng::gen` of `rand` at type `usize`: an index drawn from all of
/// `usize`.  Nothing is claimed of it.
#[verifier::external_body]
pub(crate) fn siguiente_usize(rng: &mut Isaac64Rng) -> (n: usize) {
    rng.gen::<usize>()
}

/// `Rng::gen_range` of `rand` at type `usize`: the draw lies in
/// `[bajo, alto)`.  `rand` panics unless `bajo < alto`.
#[verifier::external_body]
pub(crate) fn entero_en_rango(rng: &mut Isaac64Rng, bajo: usize, alto: usize) -> (r: usize)
    requires
        bajo < alto,
    ensures
        bajo <= r < alto,
{
    rng.gen_range(bajo, alto)
}

/// `Rng::shuffle` of `rand`: it only swaps elements, so the vector holds
/// the same values afterwards, each as often as before.
#[verifier::external_body]
pub(crate) fn barajar(rng: &mut Isaac64Rng, v: &mut Vec<usize>)
    ensures
        final(v)@.to_multiset() == old(v)@.to_multiset(),
        final(v)@.len() == old(v)@.len(),
{
    rng.shuffle(v.as_mut_slice())
}

/// The fixed-point number in `[0, UNO)` that 64 random bits stand for:
/// their low 52 bits read as a binary fraction, as `rand` reads them, and
/// rounded down to millionths.
pub open spec fn uniforme_de(bits: u64) -> int {
    ((bits as int % 0x10_0000_0000_0000) * 1_000_000) / 0x10_0000_0000_0000
}

/// Computes `uniforme_de`.
pub fn uniforme_desde(bits: u64) -> (u: u64)
    ensures
        u == uniforme_de(bits),
        u < UNO,
{
    let fraccion: u64 = bits % 0x10_0000_0000_0000;
    let escalado: u128 = fraccion as u128 * 1_000_000u128;
    let u: u128 = escalado / 0x10_0000_0000_0000u128;
    u as u64
}

/// A uniform draw from `[0, UNO)`.
pub fn uniforme(rng: &mut Isaac64Rng) -> (u: u64)
    ensures
        u < UNO,
{
    uniforme_desde(siguiente_u64(rng))
}

/// `r` lists, in increasing order, the positions below `m` that
/// `excluidos` does not hold.
pub open spec fn son_las_libres(r: Seq<usize>, m: nat, excluidos: Seq<usize>) -> bool {
    &&& forall|k: int| 0 <= k < r.len() ==> #[trigger] r[k] < m && !excluidos.contains(r[k])
    &&& forall|k: int, l: int| 0 <= k < l < r.len() ==> r[k] < r[l]
    &&& forall|j: usize| j < m && !excluidos.contains(j) ==> r.contains(j)
}

/// The positions below `m` that are not excluded, in increasing order.
pub fn posiciones_libres(m: usize, excluidos: &[usize]) -> (r: Vec<usize>)
    ensures
        son_las_libres(r@, m as nat, excluidos@),
{
    let mut r: Vec<usize> = Vec::new();
    let mut j: usize = 0;
    while j < m
        invariant
            j <= m,
            son_las_libres(r@, j as nat, excluidos@),
        decreases m - j,
    {
        let mut esta = false;
        let mut e: usize = 0;
        while e < excluidos.len()
            invariant
                e <= excluidos@.len(),
                esta == exists|k: int| 0 <= k < e && excluidos@[k] == j,
            decreases excluidos@.len() - e,
        {
            if excluidos[e] == j {
                esta = true;
            }
            e += 1;
        }
        assert(esta == excluidos@.contains(j));
        let ghost previo = r@;
        if !esta {
            r.push(j);
            proof {
                assert(r@[r@.len() - 1] == j);
                assert forall|x: usize| x < j + 1 && !excluidos@.contains(x) implies r@.contains(
                    x,
                ) by {
                    if x < j {
                        let k = choose|k: int| 0 <= k < previo.len() && previo[k] == x;
                        assert(r@[k] == x);
                    }
                }
            }
        }
        j += 1;
    }
    r
}

/// Fewer values than `m` do not hold every position below `m`.
pub proof fn lema_queda_libre(m: usize, excluidos: Seq<usize>)
    requires
        excluidos.len() < m,
    ensures
        exists|j: usize| j < m && !excluidos.contains(j),
{
    if forall|j: usize| j < m ==> excluidos.contains(j) {
        let todas = identidad(m as nat);
        assert(todas.no_duplicates());
        todas.unique_seq_to_set();
        excluidos.lemma_cardinality_of_set();
        assert(todas.to_set().subset_of(excluidos.to_set())) by {
            assert forall|x: usize| todas.to_set().contains(x) implies excluidos.to_set().contains(
                x,
            ) by {
                assert(todas.contains(x));
                let i = choose|i: int| 0 <= i < todas.len() && todas[i] == x;
                assert(x < m);
                assert(excluidos.contains(x));
            }
        }
        vstd::seq_lib::seq_to_set_is_finite(excluidos);
        vstd::set_lib::lemma_len_subset(todas.to_set(), excluidos.to_set());
    }
}

/// A position below `m`, drawn from those that `excluidos` does not
/// hold; `None` when it holds them all, which fewer than `m` values
/// never do.
pub fn aleatorio_distinto(rng: &mut Isaac64Rng, m: usize, excluidos: &[usize]) -> (r: Option<
    usize,
>)
    ensures
        match r {
            Some(p) => p < m && !excluidos@.contains(p),
            None => forall|j: usize| j < m ==> excluidos@.contains(j),
        },
        excluidos@.len() < m ==> r is Some,
{
    proof {
        if excluidos@.len() < m {
            lema_queda_libre(m, excluidos@);
        }
    }
    let candidatos = posiciones_libres(m, excluidos);
    if candidatos.len() == 0 {
        assert forall|j: usize| j < m implies excluidos@.contains(j) by {
            if !excluidos@.contains(j) {
                assert(candidatos@.contains(j));
            }
        }
        None
    } else {
        let k = entero_en_rango(rng, 0, candidatos.len());
        Some(candidatos[k])
    }
}


/// The positions below `n` in increasing order.
pub open spec fn identidad(n: nat) -> Seq<usize> {
    Seq::new(n, |k: int| k as usize)
}

/// The positions below `n` in a random order: each occurs once.
pub fn permutacion_aleatoria(n: usize, rng: &mut Isaac64Rng) -> (perm: Vec<usize>)
    ensures
        perm@.len() == n,
        perm@.to_multiset() == identidad(n as nat).to_multiset(),
        forall|k: int| 0 <= k < n ==> #[trigger] perm@[k] < n,
        perm@.no_duplicates(),
{
    let mut perm: Vec<usize> = Vec::new();
    let mut k: usize = 0;
    while k < n
        invariant
            k <= n,
            perm@.len() == k,
            forall|j: int| 0 <= j < k ==> #[trigger] perm@[j] == j,
        decreases n - k,
    {
        perm.push(k);
        k += 1;
    }
    let ghost natural = perm@;
    assert(natural =~= identidad(n as nat));
    barajar(rng, &mut perm);
    proof {
        assert forall|k: int| 0 <= k < perm@.len() implies #[trigger] perm@[k] < n by {
            let x = perm@[k];
            perm@.to_multiset_ensures();
            natural.to_multiset_ensures();
            assert(perm@.contains(x));
            assert(natural.to_multiset().count(x) > 0);
            assert(natural.contains(x));
            let j = choose|j: int| 0 <= j < natural.len() && natural[j] == x;
            assert(natural[j] == j);
        }
        assert(natural.no_duplicates());
        natural.lemma_multiset_has_no_duplicates();
        perm@.lemma_multiset_has_no_duplicates_conv();
    }
    perm
}

} // verus!
