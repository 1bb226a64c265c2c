//! Stratified folds for cross-validation.
//!
//! The records are taken in the order of a permutation of their
//! positions.  Class by class, the records of the class are dealt out to
//! the folds in consecutive runs, each fold taking its rounded share of
//! what is left, so that every fold gets about the same number of
//! records of every class.

use vstd::prelude::*;
use vstd::multiset::Multiset;
use vstd::seq_lib::{lemma_multiset_commutative, to_multiset_build};
use crate::knn::Dato;
use crate::aleatorio::identidad;

verus! {

/// `a / b` rounded to the nearest integer, halves upwards.
pub open spec fn redondear(a: nat, b: nat) -> nat {
    (2 * a + b) / (2 * b)
}

/// A rounded share of `a` is no more than `a`, and all of it for one taker.
pub proof fn lema_redondear(a: nat, b: nat)
    requires
        b >= 1,
    ensures
        redondear(a, b) <= a,
        b == 1 ==> redondear(a, b) == a,
{
    if b == 1 {
        assert((2 * a + 1) / 2 == a);
    } else if a == 0 {
        assert((2 * 0 + b) / (2 * b) == 0) by (nonlinear_arith)
            requires
                b >= 1,
        ;
    } else {
        assert((2 * a + b) <= a * (2 * b)) by (nonlinear_arith)
            requires
                a >= 1,
                b >= 2,
        ;
        assert((2 * a + b) / (2 * b) <= a) by (nonlinear_arith)
            requires
                (2 * a + b) <= a * (2 * b),
                b >= 1,
        ;
    }
}

/// Computes `redondear`.
pub fn redondear_cociente(a: usize, b: usize) -> (q: usize)
    requires
        b >= 1,
    ensures
        q == redondear(a as nat, b as nat),
        q <= a,
{
    proof {
        lema_redondear(a as nat, b as nat);
    }
    ((2 * (a as u128) + b as u128) / (2 * (b as u128))) as usize
}

/// Records of a class of `total` that are left when the first `i` of
/// `n_fold` folds have taken theirs.
pub open spec fn restante(total: nat, n_fold: nat, i: nat) -> nat
    decreases i,
{
    if i == 0 {
        total
    } else {
        let r = restante(total, n_fold, (i - 1) as nat);
        (r - redondear(r, (n_fold - (i - 1)) as nat)) as nat
    }
}

/// Records of a class of `total` that fold `i` takes: its rounded share
/// of what the folds before it left.
pub open spec fn cuota(total: nat, n_fold: nat, i: nat) -> nat {
    redondear(restante(total, n_fold, i), (n_fold - i) as nat)
}

/// Position in its class of the first record that fold `i` takes.
pub open spec fn inicio(total: nat, n_fold: nat, i: nat) -> nat {
    (total - restante(total, n_fold, i)) as nat
}

/// The folds take consecutive runs that together are the whole class.
pub proof fn lema_restante(total: nat, n_fold: nat, i: nat)
    requires
        i <= n_fold,
    ensures
        restante(total, n_fold, i) <= total,
        i < n_fold ==> cuota(total, n_fold, i) <= restante(total, n_fold, i),
        i < n_fold ==> restante(total, n_fold, i + 1) == restante(total, n_fold, i) - cuota(
            total,
            n_fold,
            i,
        ),
        i < n_fold ==> inicio(total, n_fold, i + 1) == inicio(total, n_fold, i) + cuota(
            total,
            n_fold,
            i,
        ),
        i == n_fold && n_fold > 0 ==> restante(total, n_fold, i) == 0,
    decreases i,
{
    if i > 0 {
        lema_restante(total, n_fold, (i - 1) as nat);
        lema_redondear(restante(total, n_fold, (i - 1) as nat), (n_fold - (i - 1)) as nat);
    }
    if i < n_fold {
        lema_redondear(restante(total, n_fold, i), (n_fold - i) as nat);
    }
}

/// What is left for the folds from `i` on is between `total / n_fold`
/// and one more for each of them.
proof fn lema_restante_equilibrado(total: nat, n_fold: nat, i: nat)
    requires
        n_fold > 0,
        i <= n_fold,
    ensures
        (total / n_fold) * (n_fold - i) <= restante(total, n_fold, i) <= (total / n_fold + 1) * (
        n_fold - i),
    decreases i,
{
    let q = total / n_fold;
    if i == 0 {
        assert(q * n_fold <= total <= (q + 1) * n_fold) by (nonlinear_arith)
            requires
                q == total / n_fold,
                n_fold > 0,
        ;
    } else {
        let j = (i - 1) as nat;
        lema_restante_equilibrado(total, n_fold, j);
        let r = restante(total, n_fold, j);
        let k = (n_fold - j) as nat;
        let t = redondear(r, k);
        lema_redondear(r, k);
        assert(q * (k - 1) <= r - t <= (q + 1) * (k - 1)) by (nonlinear_arith)
            requires
                q * k <= r <= (q + 1) * k,
                k >= 1,
                t == (2 * r + k) / (2 * k),
                t <= r,
        ;
    }
}

/// The folds share a class evenly: each takes `total / n_fold` of its
/// records, or one more.
pub proof fn lema_cuota_equilibrada(total: nat, n_fold: nat, i: nat)
    requires
        i < n_fold,
    ensures
        total / n_fold <= cuota(total, n_fold, i) <= total / n_fold + 1,
{
    let q = total / n_fold;
    lema_restante_equilibrado(total, n_fold, i);
    let r = restante(total, n_fold, i);
    let k = (n_fold - i) as nat;
    assert(q <= (2 * r + k) / (2 * k) <= q + 1) by (nonlinear_arith)
        requires
            q * k <= r <= (q + 1) * k,
            k >= 1,
    ;
}

/// The class of the record at position `k` of the permutation.
pub open spec fn clase_en(datos: Seq<Dato>, perm: Seq<usize>, k: int) -> i32 {
    datos[perm[k] as int]@.categoria
}

/// The records of class `c` among the first `n` of the permutation, in its order.
pub open spec fn de_clase(datos: Seq<Dato>, perm: Seq<usize>, c: int, n: nat) -> Seq<usize>
    decreases n,
{
    if n == 0 {
        Seq::empty()
    } else {
        let previos = de_clase(datos, perm, c, (n - 1) as nat);
        if clase_en(datos, perm, n - 1) == c {
            previos.push(perm[n - 1])
        } else {
            previos
        }
    }
}

/// The records of the classes below `c` among the first `n` of the
/// permutation, as a multiset.
pub open spec fn de_clases_menores(datos: Seq<Dato>, perm: Seq<usize>, c: int, n: nat) -> Multiset<
    usize,
>
    decreases n,
{
    if n == 0 {
        Multiset::empty()
    } else {
        let previos = de_clases_menores(datos, perm, c, (n - 1) as nat);
        if 0 <= clase_en(datos, perm, n - 1) < c {
            previos.insert(perm[n - 1])
        } else {
            previos
        }
    }
}

/// The run of class `c` that fold `i` takes.
pub open spec fn tramo(datos: Seq<Dato>, perm: Seq<usize>, n_fold: nat, i: nat, c: int) -> Seq<usize> {
    let clase = de_clase(datos, perm, c, perm.len());
    clase.subrange(
        inicio(clase.len(), n_fold, i) as int,
        (inicio(clase.len(), n_fold, i) + cuota(clase.len(), n_fold, i)) as int,
    )
}

/// Fold `i` of `n_fold` over the classes below `n_clases`: its runs of
/// each class, by class.
pub open spec fn pliegue(
    datos: Seq<Dato>,
    perm: Seq<usize>,
    n_fold: nat,
    i: nat,
    n_clases: nat,
) -> Seq<usize>
    decreases n_clases,
{
    if n_clases == 0 {
        Seq::empty()
    } else {
        pliegue(datos, perm, n_fold, i, (n_clases - 1) as nat) + tramo(
            datos,
            perm,
            n_fold,
            i,
            n_clases - 1,
        )
    }
}

/// The first `k` folds together, as a multiset.
pub open spec fn union_pliegues(
    datos: Seq<Dato>,
    perm: Seq<usize>,
    n_fold: nat,
    k: nat,
    n_clases: nat,
) -> Multiset<usize>
    decreases k,
{
    if k == 0 {
        Multiset::empty()
    } else {
        union_pliegues(datos, perm, n_fold, (k - 1) as nat, n_clases).add(
            pliegue(datos, perm, n_fold, (k - 1) as nat, n_clases).to_multiset(),
        )
    }
}


/// The runs of class `c` that the first `k` folds take, as a multiset.
pub open spec fn union_tramos(
    datos: Seq<Dato>,
    perm: Seq<usize>,
    n_fold: nat,
    k: nat,
    c: int,
) -> Multiset<usize>
    decreases k,
{
    if k == 0 {
        Multiset::empty()
    } else {
        union_tramos(datos, perm, n_fold, (k - 1) as nat, c).add(
            tramo(datos, perm, n_fold, (k - 1) as nat, c).to_multiset(),
        )
    }
}

/// A sequence without elements is a multiset without elements.
proof fn lema_vacio()
    ensures
        Seq::<usize>::empty().to_multiset() == Multiset::<usize>::empty(),
{
    let s = Seq::<usize>::empty();
    s.to_multiset_ensures();
    assert forall|a: usize| s.to_multiset().count(a) == 0 by {
        assert(!s.contains(a));
    }
    assert(s.to_multiset() =~= Multiset::<usize>::empty());
}

/// The runs of the first `k` folds are the first records of the class.
proof fn lema_union_tramos(datos: Seq<Dato>, perm: Seq<usize>, n_fold: nat, k: nat, c: int)
    requires
        k <= n_fold,
    ensures
        union_tramos(datos, perm, n_fold, k, c) == de_clase(datos, perm, c, perm.len()).subrange(
            0,
            inicio(de_clase(datos, perm, c, perm.len()).len(), n_fold, k) as int,
        ).to_multiset(),
    decreases k,
{
    let clase = de_clase(datos, perm, c, perm.len());
    let total = clase.len();
    lema_restante(total, n_fold, k);
    if k == 0 {
        assert(clase.subrange(0, 0) =~= Seq::<usize>::empty());
        lema_vacio();
    } else {
        let j = (k - 1) as nat;
        lema_union_tramos(datos, perm, n_fold, j, c);
        lema_restante(total, n_fold, j);
        let a = inicio(total, n_fold, j) as int;
        let b = inicio(total, n_fold, k) as int;
        assert(b == a + cuota(total, n_fold, j));
        assert(b <= total);
        lemma_multiset_commutative(clase.subrange(0, a), clase.subrange(a, b));
        assert(clase.subrange(0, a) + clase.subrange(a, b) =~= clase.subrange(0, b));
        assert(tramo(datos, perm, n_fold, j, c) == clase.subrange(a, b));
    }
}

/// Adding a class to the folds adds its runs to their union.
proof fn lema_union_pliegues(datos: Seq<Dato>, perm: Seq<usize>, n_fold: nat, k: nat, n_clases: nat)
    ensures
        union_pliegues(datos, perm, n_fold, k, n_clases + 1) =~= union_pliegues(
            datos,
            perm,
            n_fold,
            k,
            n_clases,
        ).add(union_tramos(datos, perm, n_fold, k, n_clases as int)),
    decreases k,
{
    if k > 0 {
        let j = (k - 1) as nat;
        lema_union_pliegues(datos, perm, n_fold, j, n_clases);
        lemma_multiset_commutative(
            pliegue(datos, perm, n_fold, j, n_clases),
            tramo(datos, perm, n_fold, j, n_clases as int),
        );
    }
}

/// Folds over no class hold nothing.
proof fn lema_union_vacia(datos: Seq<Dato>, perm: Seq<usize>, n_fold: nat, k: nat)
    ensures
        union_pliegues(datos, perm, n_fold, k, 0) =~= Multiset::empty(),
    decreases k,
{
    if k > 0 {
        lema_union_vacia(datos, perm, n_fold, (k - 1) as nat);
        lema_vacio();
    }
}

/// The records of the classes up to `c` are those of the classes below
/// it and those of `c`.
proof fn lema_clases_menores(datos: Seq<Dato>, perm: Seq<usize>, c: nat, n: nat)
    requires
        n <= perm.len(),
    ensures
        de_clases_menores(datos, perm, c as int + 1, n) =~= de_clases_menores(
            datos,
            perm,
            c as int,
            n,
        ).add(de_clase(datos, perm, c as int, n).to_multiset()),
        de_clases_menores(datos, perm, 0, n) =~= Multiset::empty(),
    decreases n,
{
    if n == 0 {
        lema_vacio();
    } else {
        lema_clases_menores(datos, perm, c, (n - 1) as nat);
        to_multiset_build(de_clase(datos, perm, c as int, (n - 1) as nat), perm[n - 1]);
    }
}

/// Every record of the permutation belongs to a class in `[0, n_clases)`.
pub open spec fn clases_hasta(datos: Seq<Dato>, perm: Seq<usize>, n_clases: nat) -> bool {
    forall|k: int| 0 <= k < perm.len() ==> 0 <= #[trigger] clase_en(datos, perm, k) < n_clases
}

/// The records of all classes are all the records.
proof fn lema_todas_las_clases(datos: Seq<Dato>, perm: Seq<usize>, n_clases: nat, n: nat)
    requires
        n <= perm.len(),
        clases_hasta(datos, perm, n_clases),
    ensures
        de_clases_menores(datos, perm, n_clases as int, n) =~= perm.subrange(0, n as int).to_multiset(),
    decreases n,
{
    if n == 0 {
        assert(perm.subrange(0, 0) =~= Seq::<usize>::empty());
        lema_vacio();
    } else {
        lema_todas_las_clases(datos, perm, n_clases, (n - 1) as nat);
        to_multiset_build(perm.subrange(0, n - 1), perm[n - 1]);
        assert(perm.subrange(0, n - 1).push(perm[n - 1]) =~= perm.subrange(0, n as int));
        assert(0 <= clase_en(datos, perm, n - 1) < n_clases);
    }
}

/// The folds over the classes below `c` hold the records of those classes.
proof fn lema_pliegues_por_clase(datos: Seq<Dato>, perm: Seq<usize>, n_fold: nat, c: nat)
    requires
        n_fold > 0,
    ensures
        union_pliegues(datos, perm, n_fold, n_fold, c) =~= de_clases_menores(
            datos,
            perm,
            c as int,
            perm.len(),
        ),
    decreases c,
{
    if c == 0 {
        lema_union_vacia(datos, perm, n_fold, n_fold);
        lema_clases_menores(datos, perm, 0, perm.len());
    } else {
        let b = (c - 1) as nat;
        lema_pliegues_por_clase(datos, perm, n_fold, b);
        lema_union_pliegues(datos, perm, n_fold, n_fold, b);
        lema_union_tramos(datos, perm, n_fold, n_fold, b as int);
        lema_clases_menores(datos, perm, b, perm.len());
        let clase = de_clase(datos, perm, b as int, perm.len());
        lema_restante(clase.len(), n_fold, n_fold);
        assert(clase.subrange(0, clase.len() as int) =~= clase);
    }
}

/// The folds are disjoint and together are the whole sample: every
/// position occurs in the folds, taken together, as often as in the
/// permutation.  Under a permutation of the positions each record is
/// therefore in one fold and in one only.
pub proof fn lema_particion_completa(datos: Seq<Dato>, perm: Seq<usize>, n_fold: nat, n_clases: nat)
    requires
        n_fold > 0,
        clases_hasta(datos, perm, n_clases),
    ensures
        union_pliegues(datos, perm, n_fold, n_fold, n_clases) == perm.to_multiset(),
{
    lema_pliegues_por_clase(datos, perm, n_fold, n_clases);
    lema_todas_las_clases(datos, perm, n_clases, perm.len());
    assert(perm.subrange(0, perm.len() as int) =~= perm);
}


/// One more than the largest class among the first `n` records of the
/// permutation; zero when there is none.
pub open spec fn num_clases(datos: Seq<Dato>, perm: Seq<usize>, n: nat) -> nat
    decreases n,
{
    if n == 0 {
        0
    } else {
        let previo = num_clases(datos, perm, (n - 1) as nat);
        let c = clase_en(datos, perm, n - 1);
        if c >= previo {
            (c + 1) as nat
        } else {
            previo
        }
    }
}

/// A permutation whose entries are positions of `datos`, all of records
/// with a class that is not negative.
pub open spec fn permutacion_valida(datos: Seq<Dato>, perm: Seq<usize>) -> bool {
    forall|k: int|
        0 <= k < perm.len() ==> (#[trigger] perm[k]) < datos.len() && clase_en(datos, perm, k) >= 0
}

/// Decides `permutacion_valida`.
pub fn es_permutacion_valida(datos: &[Dato], permutacion: &[usize]) -> (b: bool)
    ensures
        b == permutacion_valida(datos@, permutacion@),
{
    let mut k: usize = 0;
    while k < permutacion.len()
        invariant
            k <= permutacion@.len(),
            forall|j: int|
                0 <= j < k ==> (#[trigger] permutacion@[j]) < datos@.len() && clase_en(
                    datos@,
                    permutacion@,
                    j,
                ) >= 0,
        decreases permutacion@.len() - k,
    {
        if permutacion[k] >= datos.len() || datos[permutacion[k]].id_categoria() < 0 {
            return false;
        }
        k += 1;
    }
    true
}

/// `num_clases` is above every class.
pub proof fn lema_num_clases(datos: Seq<Dato>, perm: Seq<usize>, n: nat)
    requires
        n <= perm.len(),
        permutacion_valida(datos, perm),
    ensures
        forall|k: int|
            0 <= k < n ==> 0 <= #[trigger] clase_en(datos, perm, k) < num_clases(datos, perm, n),
    decreases n,
{
    if n > 0 {
        lema_num_clases(datos, perm, (n - 1) as nat);
        assert(perm[n - 1] < datos.len());
    }
}

/// Counts the classes: one more than the largest.
pub fn contar_clases(datos: &[Dato], permutacion: &[usize]) -> (n: usize)
    requires
        permutacion_valida(datos@, permutacion@),
    ensures
        n == num_clases(datos@, permutacion@, permutacion@.len()),
{
    let mut n: usize = 0;
    let mut k: usize = 0;
    while k < permutacion.len()
        invariant
            k <= permutacion@.len(),
            permutacion_valida(datos@, permutacion@),
            n == num_clases(datos@, permutacion@, k as nat),
            n <= 0x8000_0000,
        decreases permutacion@.len() - k,
    {
        assert(permutacion@[k as int] < datos@.len() && clase_en(datos@, permutacion@, k as int) >= 0);
        let c: i32 = datos[permutacion[k]].id_categoria();
        if c as usize >= n {
            n = c as usize + 1;
        }
        k += 1;
    }
    n
}

/// The records of class `c`, in the order of the permutation.
pub fn datos_de_clase(datos: &[Dato], permutacion: &[usize], c: usize) -> (r: Vec<usize>)
    requires
        permutacion_valida(datos@, permutacion@),
    ensures
        r@ == de_clase(datos@, permutacion@, c as int, permutacion@.len()),
{
    let mut r: Vec<usize> = Vec::new();
    let mut k: usize = 0;
    while k < permutacion.len()
        invariant
            k <= permutacion@.len(),
            permutacion_valida(datos@, permutacion@),
            r@ == de_clase(datos@, permutacion@, c as int, k as nat),
        decreases permutacion@.len() - k,
    {
        assert(permutacion@[k as int] < datos@.len() && clase_en(datos@, permutacion@, k as int) >= 0);
        let cat: i32 = datos[permutacion[k]].id_categoria();
        if cat as usize == c {
            r.push(permutacion[k]);
        }
        k += 1;
    }
    r
}

/// Where the run of fold `i` starts in a class of `total` records, and its length.
pub fn tramo_de(total: usize, n_fold: usize, i: usize) -> (r: (usize, usize))
    requires
        i < n_fold,
    ensures
        r.0 == inicio(total as nat, n_fold as nat, i as nat),
        r.1 == cuota(total as nat, n_fold as nat, i as nat),
        r.0 + r.1 <= total,
        total / n_fold <= r.1 <= total / n_fold + 1,
{
    let mut queda: usize = total;
    let mut j: usize = 0;
    while j < i
        invariant
            j <= i < n_fold,
            queda == restante(total as nat, n_fold as nat, j as nat),
            queda <= total,
        decreases i - j,
    {
        proof {
            lema_restante(total as nat, n_fold as nat, j as nat);
        }
        let tomados: usize = redondear_cociente(queda, n_fold - j);
        queda = queda - tomados;
        j += 1;
    }
    proof {
        lema_restante(total as nat, n_fold as nat, i as nat);
        lema_cuota_equilibrada(total as nat, n_fold as nat, i as nat);
    }
    let tomados: usize = redondear_cociente(queda, n_fold - i);
    (total - queda, tomados)
}

/// Splits the records into `n_fold` folds with about the same number
/// of records of each class in each.  The records are named by their
/// positions in `datos`, which `permutacion` lists in the order in
/// which they are dealt out.
pub fn particionar(datos: &[Dato], permutacion: &[usize], n_fold: usize) -> (particion: Vec<Vec<usize>>)
    requires
        n_fold > 0,
        permutacion_valida(datos@, permutacion@),
    ensures
        particion@.len() == n_fold,
        forall|i: int|
            0 <= i < n_fold ==> (#[trigger] particion@[i])@ == pliegue(
                datos@,
                permutacion@,
                n_fold as nat,
                i as nat,
                num_clases(datos@, permutacion@, permutacion@.len()),
            ),
        forall|i: int, k: int|
            0 <= i < n_fold && 0 <= k < particion@[i]@.len() ==> (#[trigger] particion@[i]@[k])
                < datos@.len(),
{
    let ghost d = datos@;
    let ghost perm = permutacion@;
    let n_clases: usize = contar_clases(datos, permutacion);
    let mut clases: Vec<Vec<usize>> = Vec::new();
    let mut c: usize = 0;
    while c < n_clases
        invariant
            c <= n_clases,
            d == datos@,
            perm == permutacion@,
            permutacion_valida(d, perm),
            clases@.len() == c,
            forall|b: int| 0 <= b < c ==> (#[trigger] clases@[b])@ == de_clase(d, perm, b, perm.len()),
        decreases n_clases - c,
    {
        let clase = datos_de_clase(datos, permutacion, c);
        clases.push(clase);
        c += 1;
    }
    let mut particion: Vec<Vec<usize>> = Vec::new();
    let mut i: usize = 0;
    while i < n_fold
        invariant
            i <= n_fold,
            d == datos@,
            perm == permutacion@,
            permutacion_valida(d, perm),
            n_clases == num_clases(d, perm, perm.len()),
            clases@.len() == n_clases,
            forall|b: int|
                0 <= b < n_clases ==> (#[trigger] clases@[b])@ == de_clase(d, perm, b, perm.len()),
            particion@.len() == i,
            forall|j: int|
                0 <= j < i ==> (#[trigger] particion@[j])@ == pliegue(
                    d,
                    perm,
                    n_fold as nat,
                    j as nat,
                    n_clases as nat,
                ),
            forall|j: int, k: int|
                0 <= j < i && 0 <= k < particion@[j]@.len() ==> (#[trigger] particion@[j]@[k])
                    < d.len(),
        decreases n_fold - i,
    {
        let mut fold: Vec<usize> = Vec::new();
        let mut b: usize = 0;
        while b < n_clases
            invariant
                b <= n_clases,
                i < n_fold,
                permutacion_valida(d, perm),
                clases@.len() == n_clases,
                forall|a: int|
                    0 <= a < n_clases ==> (#[trigger] clases@[a])@ == de_clase(d, perm, a, perm.len()),
                fold@ == pliegue(d, perm, n_fold as nat, i as nat, b as nat),
                forall|k: int| 0 <= k < fold@.len() ==> #[trigger] fold@[k] < d.len(),
            decreases n_clases - b,
        {
            let clase = &clases[b];
            let (desde, cuantos) = tramo_de(clase.len(), n_fold, i);
            let ghost antes = fold@;
            let mut k: usize = 0;
            while k < cuantos
                invariant
                    k <= cuantos,
                    desde + cuantos <= clase@.len(),
                    clase@.len() <= usize::MAX,
                    clase@ == de_clase(d, perm, b as int, perm.len()),
                    permutacion_valida(d, perm),
                    fold@ == antes + clase@.subrange(desde as int, desde + k),
                    forall|j: int| 0 <= j < fold@.len() ==> #[trigger] fold@[j] < d.len(),
                decreases cuantos - k,
            {
                proof {
                    lema_de_clase_validos(d, perm, b as int, perm.len());
                }
                fold.push(clase[desde + k]);
                assert(clase@.subrange(desde as int, desde + k).push(clase@[desde + k])
                    =~= clase@.subrange(desde as int, desde + k + 1));
                assert(fold@ =~= antes + clase@.subrange(desde as int, desde + k + 1));
                k += 1;
            }
            assert(clase@.subrange(desde as int, desde + cuantos) == tramo(
                d,
                perm,
                n_fold as nat,
                i as nat,
                b as int,
            ));
            b += 1;
        }
        particion.push(fold);
        i += 1;
    }
    particion
}

/// The records of a class are positions of `datos`.
pub proof fn lema_de_clase_validos(datos: Seq<Dato>, perm: Seq<usize>, c: int, n: nat)
    requires
        n <= perm.len(),
        permutacion_valida(datos, perm),
    ensures
        forall|k: int|
            0 <= k < de_clase(datos, perm, c, n).len() ==> #[trigger] de_clase(datos, perm, c, n)[k]
                < datos.len(),
    decreases n,
{
    if n > 0 {
        lema_de_clase_validos(datos, perm, c, (n - 1) as nat);
        assert(perm[n - 1] < datos.len());
        let previos = de_clase(datos, perm, c, (n - 1) as nat);
        let ahora = de_clase(datos, perm, c, n);
        assert forall|k: int| 0 <= k < ahora.len() implies #[trigger] ahora[k] < datos.len() by {
            if k < previos.len() {
                assert(ahora[k] == previos[k]);
            }
        }
    }
}


/// Each position below `n` occurs once among the positions below `n`.
proof fn lema_identidad(n: nat, k: usize)
    requires
        n <= usize::MAX,
    ensures
        identidad(n).to_multiset().count(k) == (if k < n { 1nat } else { 0nat }),
    decreases n,
{
    if n == 0 {
        lema_vacio();
        assert(identidad(0) =~= Seq::<usize>::empty());
    } else {
        let m = (n - 1) as nat;
        let ultimo = m as usize;
        lema_identidad(m, k);
        to_multiset_build(identidad(m), ultimo);
        assert(identidad(m).push(ultimo) =~= identidad(n));
    }
}

/// A class counts at least the records of it that one knows: one, or
/// two at different places of the permutation.
pub proof fn lema_clase_cuenta(
    datos: Seq<Dato>,
    perm: Seq<usize>,
    c: int,
    k1: int,
    k2: int,
    n: nat,
)
    requires
        0 <= k1 <= k2 < n <= perm.len(),
        clase_en(datos, perm, k1) == c,
        clase_en(datos, perm, k2) == c,
    ensures
        de_clase(datos, perm, c, n).len() >= 1,
        k1 < k2 ==> de_clase(datos, perm, c, n).len() >= 2,
    decreases n,
{
    if n - 1 > k2 {
        lema_clase_cuenta(datos, perm, c, k1, k2, (n - 1) as nat);
    } else if k1 < k2 {
        lema_clase_cuenta(datos, perm, c, k1, k1, (n - 1) as nat);
    }
}

/// Of a class of two records or more no fold of five takes all:
/// another fold takes one at least.
pub proof fn lema_otro_pliegue_toma(total: nat, i: nat) -> (j: nat)
    requires
        total >= 2,
        i < 5,
    ensures
        j < 5,
        j != i,
        cuota(total, 5, j) > 0,
{
    lema_restante(total, 5, 0);
    lema_restante(total, 5, 1);
    lema_restante(total, 5, 2);
    lema_restante(total, 5, 3);
    lema_restante(total, 5, 4);
    lema_restante(total, 5, 5);
    lema_cuota_equilibrada(total, 5, i);
    assert(restante(total, 5, 0) == total);
    assert(cuota(total, 5, 0) + cuota(total, 5, 1) + cuota(total, 5, 2) + cuota(total, 5, 3)
        + cuota(total, 5, 4) == total);
    assert(total / 5 + 1 < total);
    if i != 0 && cuota(total, 5, 0) > 0 {
        0
    } else if i != 1 && cuota(total, 5, 1) > 0 {
        1
    } else if i != 2 && cuota(total, 5, 2) > 0 {
        2
    } else if i != 3 && cuota(total, 5, 3) > 0 {
        3
    } else {
        4
    }
}

/// A fold holds the run that it takes of each class.
pub proof fn lema_pliegue_contiene_tramo(
    datos: Seq<Dato>,
    perm: Seq<usize>,
    n_fold: nat,
    i: nat,
    n_clases: nat,
    c: int,
)
    requires
        i < n_fold,
        0 <= c < n_clases,
    ensures
        pliegue(datos, perm, n_fold, i, n_clases).len() >= cuota(
            de_clase(datos, perm, c, perm.len()).len(),
            n_fold,
            i,
        ),
    decreases n_clases,
{
    if c < n_clases - 1 {
        lema_pliegue_contiene_tramo(datos, perm, n_fold, i, (n_clases - 1) as nat, c);
    } else {
        let total = de_clase(datos, perm, c, perm.len()).len();
        lema_restante(total, n_fold, i);
    }
}

/// Under a permutation of the positions of the records, every record
/// is in one fold and in one only: no record is lost, and none is in
/// two folds or twice in one.
pub proof fn lema_cada_dato_en_un_pliegue(
    datos: Seq<Dato>,
    perm: Seq<usize>,
    n_fold: nat,
    n_clases: nat,
    k: usize,
)
    requires
        n_fold > 0,
        datos.len() <= usize::MAX,
        perm.to_multiset() == identidad(datos.len()).to_multiset(),
        clases_hasta(datos, perm, n_clases),
    ensures
        union_pliegues(datos, perm, n_fold, n_fold, n_clases).count(k) == (if k < datos.len() {
            1nat
        } else {
            0nat
        }),
{
    lema_particion_completa(datos, perm, n_fold, n_clases);
    lema_identidad(datos.len(), k);
}

} // verus!
