//! Weight vectors, the neighbour operators and the local search engine,
//! with the greedy RELIEF weighting and the refinements built on it.

use vstd::prelude::*;
use vstd::std_specs::btree::*;
use vstd::std_specs::cmp::OrdSpec;
use vstd::std_specs::iter::IteratorSpec;
use std::collections::BTreeSet;
use rand::Isaac64Rng;
use crate::aleatorio::{Ruido, identidad, uniforme};
use crate::fijo::{
    UNO, UMBRAL, a_escala, ceros, lema_ceros, normalizado, todo_cero, recortar_spec, recortar_suma,
};
use crate::knn::{
    Dato, DatoModelo, Criterio, primer_minimo, lema_primer_minimo, hay_amigo, hay_enemigo,
    tiene_amigo, tiene_enemigo, get_amigo_mas_cercano, get_enemigo_mas_cercano, equivalentes,
};
use crate::evaluacion_pesos::{
    evaluar, muestra_valida, pesos_validos, puntuacion, num_atributos, lema_muestra_evaluable,
    lema_puntuacion_equivalente,
};

verus! {

/// Largest of the first `n` components; zero when there is none.
pub open spec fn maximo(w: Seq<u64>, n: nat) -> u64
    decreases n,
{
    if n == 0 {
        0
    } else {
        let m = maximo(w, (n - 1) as nat);
        if w[n - 1] > m {
            w[n - 1]
        } else {
            m
        }
    }
}

/// `maximo` bounds the components it ranges over, and is one of them.
pub proof fn lema_maximo(w: Seq<u64>, n: nat)
    requires
        n <= w.len(),
    ensures
        forall|i: int| 0 <= i < n ==> #[trigger] w[i] <= maximo(w, n),
        n > 0 ==> exists|i: int| 0 <= i < n && #[trigger] w[i] == maximo(w, n),
        n == 0 ==> maximo(w, n) == 0,
    decreases n,
{
    if n > 0 {
        lema_maximo(w, (n - 1) as nat);
        if n > 1 {
            let k = choose|i: int| 0 <= i < n - 1 && #[trigger] w[i] == maximo(w, (n - 1) as nat);
            assert(w[k] == maximo(w, (n - 1) as nat));
        }
        assert(w[n - 1] == maximo(w, n) || maximo(w, n) == maximo(w, (n - 1) as nat));
    }
}

/// One component rescaled so that `max` becomes `UNO`, rounded down.
pub open spec fn reescalar(x: u64, max: u64) -> u64 {
    (x * UNO / (max as int)) as u64
}

/// The vector rescaled so that its largest component becomes `UNO`.  A
/// vector whose largest component is zero or `UNO`, or that has none, is
/// left as it is.
pub open spec fn normalizar_spec(w: Seq<u64>) -> Seq<u64> {
    let max = maximo(w, w.len());
    if max != UNO && max != 0 {
        Seq::new(w.len(), |i: int| reescalar(w[i], max))
    } else {
        w
    }
}

/// Rescaling keeps a component within `[0, UNO]` and takes the largest to `UNO`.
pub proof fn lema_reescalar(x: u64, max: u64)
    requires
        x <= max,
        max > 0,
    ensures
        0 <= x * UNO / (max as int) <= UNO,
        x == max ==> reescalar(x, max) == UNO,
        x == 0 ==> reescalar(x, max) == 0,
{
    assert(0 <= x * UNO / (max as int) <= UNO) by (nonlinear_arith)
        requires
            0 <= x <= max,
            max > 0,
            UNO == 1_000_000,
    ;
    assert(max * UNO / (max as int) == UNO) by (nonlinear_arith)
        requires
            max > 0,
    ;
    assert(0 * UNO / (max as int) == 0) by (nonlinear_arith)
        requires
            max > 0,
    ;
}

/// A normalized vector has its largest component at `UNO` unless every
/// component is zero, in which case it is unchanged.
pub proof fn lema_normalizar(w: Seq<u64>)
    ensures
        normalizar_spec(w).len() == w.len(),
        maximo(w, w.len()) != 0 ==> normalizado(normalizar_spec(w)),
        maximo(w, w.len()) == 0 ==> todo_cero(w) && normalizar_spec(w) == w,
        forall|i: int| 0 <= i < w.len() && w[i] == 0 ==> #[trigger] normalizar_spec(w)[i] == 0,
{
    let max = maximo(w, w.len());
    let r = normalizar_spec(w);
    lema_maximo(w, w.len());
    if max != 0 {
        let k = choose|i: int| 0 <= i < w.len() && #[trigger] w[i] == max;
        assert forall|i: int| 0 <= i < r.len() implies #[trigger] r[i] <= UNO by {
            lema_reescalar(w[i], max);
        }
        lema_reescalar(w[k], max);
        assert(r[k] == UNO);
        assert forall|i: int| 0 <= i < w.len() && w[i] == 0 implies #[trigger] r[i] == 0 by {
            lema_reescalar(w[i], max);
        }
    }
}

/// Rescales a weight vector linearly so that its largest component
/// becomes `UNO`.  An empty vector, one of zeros and one whose largest
/// component is already `UNO` are left unchanged.
pub fn normalizar(w: &mut Vec<u64>)
    ensures
        final(w)@ == normalizar_spec(old(w)@),
        normalizado(final(w)@) || todo_cero(final(w)@),
{
    let mut max: u64 = 0;
    let mut i: usize = 0;
    while i < w.len()
        invariant
            i <= w@.len(),
            w@ == old(w)@,
            max == maximo(w@, i as nat),
        decreases w@.len() - i,
    {
        if w[i] > max {
            max = w[i];
        }
        i += 1;
    }
    proof {
        lema_maximo(w@, w@.len());
        lema_normalizar(w@);
    }
    if max != UNO && max != 0 {
        let mut j: usize = 0;
        while j < w.len()
            invariant
                j <= w@.len(),
                w@.len() == old(w)@.len(),
                max == maximo(old(w)@, old(w)@.len()),
                max != 0,
                forall|k: int| 0 <= k < old(w)@.len() ==> #[trigger] old(w)@[k] <= max,
                forall|k: int| 0 <= k < j ==> #[trigger] w@[k] == reescalar(old(w)@[k], max),
                forall|k: int| j <= k < w@.len() ==> #[trigger] w@[k] == old(w)@[k],
            decreases w@.len() - j,
        {
            let x: u64 = w[j];
            proof {
                lema_reescalar(x, max);
            }
            let y: u128 = x as u128 * UNO as u128 / max as u128;
            w[j] = y as u64;
            j += 1;
        }
        assert(w@ =~= normalizar_spec(old(w)@));
    }
}

/// A vector of `n_elementos` uniform draws, normalized.
pub fn vector_aleatorio_uniforme(n_elementos: usize, rng: &mut Isaac64Rng) -> (w: Vec<u64>)
    ensures
        w@.len() == n_elementos,
        normalizado(w@) || todo_cero(w@),
        exists|us: Seq<u64>|
            us.len() == n_elementos && (forall|i: int| 0 <= i < us.len() ==> #[trigger] us[i] < UNO)
                && #[trigger] normalizar_spec(us) == w@,
{
    let mut w: Vec<u64> = Vec::new();
    let mut i: usize = 0;
    while i < n_elementos
        invariant
            i <= n_elementos,
            w@.len() == i,
            forall|j: int| 0 <= j < i ==> #[trigger] w@[j] < UNO,
        decreases n_elementos - i,
    {
        w.push(uniforme(rng));
        i += 1;
    }
    let ghost us = w@;
    proof {
        lema_normalizar(w@);
    }
    normalizar(&mut w);
    assert(normalizar_spec(us) == w@);
    w
}

/// The neighbour of `w` that the default operator gives for the step
/// `paso` at position `i`: the component moves by `paso` and is confined
/// to `[0, UNO]`; where it was `UNO` and no longer is, the vector is
/// normalized again.
pub open spec fn vecino_bl_spec(w: Seq<u64>, i: int, paso: i64) -> Seq<u64> {
    let v = recortar_spec(w[i] + paso) as u64;
    let nw = w.update(i, v);
    if w[i] == UNO && v != UNO {
        normalizar_spec(nw)
    } else {
        nw
    }
}

/// The default neighbour operator for a given step.
pub fn vecino_bl_con(w: &[u64], i: usize, paso: i64) -> (nw: Vec<u64>)
    requires
        i < w@.len(),
    ensures
        nw@ == vecino_bl_spec(w@, i as int, paso),
        nw@.len() == w@.len(),
        a_escala(w@) ==> a_escala(nw@),
        normalizado(w@) ==> normalizado(nw@) || todo_cero(nw@),
{
    let mut nw = vstd::slice::slice_to_vec(w);
    let valor_previo: u64 = nw[i];
    let v: u64 = recortar_suma(valor_previo, paso);
    nw[i] = v;
    proof {
        lema_normalizar(nw@);
        if normalizado(w@) && !(valor_previo == UNO && v != UNO) {
            let k = choose|k: int| 0 <= k < w@.len() && #[trigger] w@[k] == UNO;
            assert(nw@[k] == UNO);
        }
    }
    if valor_previo == UNO && v != UNO {
        normalizar(&mut nw);
    }
    nw
}

/// Standard deviation of the step of the neighbour operators: 0.3.
pub const DESVIACION_VECINO: u64 = 300_000;

/// The default neighbour operator: position `i` moves by a normal step of
/// standard deviation 0.3.
pub fn vecino_bl<R: Ruido>(w: &[u64], i: usize, rng: &mut Isaac64Rng, ruido: &R) -> (nw: Vec<u64>)
    requires
        i < w@.len(),
    ensures
        exists|paso: i64| nw@ == vecino_bl_spec(w@, i as int, paso),
        nw@.len() == w@.len(),
        a_escala(w@) ==> a_escala(nw@),
        normalizado(w@) ==> normalizado(nw@) || todo_cero(nw@),
{
    let paso = ruido.normal(rng, DESVIACION_VECINO);
    vecino_bl_con(w, i, paso)
}

/// `x` confined to what a `u64` holds.
pub open spec fn saturar_spec(x: int) -> int {
    if x < 0 {
        0
    } else if x > u64::MAX {
        u64::MAX as int
    } else {
        x
    }
}

/// The neighbour that the alternative operator gives for the step `paso`
/// at position `i`: the component moves by `paso` and is kept from going
/// below zero; where it was `UNO`, or now exceeds `UNO`, the whole vector
/// is normalized instead of the component being cut.
pub open spec fn vecino_bl_mut2_spec(w: Seq<u64>, i: int, paso: i64) -> Seq<u64> {
    let v = saturar_spec(w[i] + paso) as u64;
    let nw = w.update(i, v);
    if w[i] == UNO || v > UNO {
        normalizar_spec(nw)
    } else {
        nw
    }
}

/// The alternative neighbour operator for a given step.
pub fn vecino_bl_mut2_con(w: &[u64], i: usize, paso: i64) -> (nw: Vec<u64>)
    requires
        i < w@.len(),
    ensures
        nw@ == vecino_bl_mut2_spec(w@, i as int, paso),
        nw@.len() == w@.len(),
        a_escala(w@) ==> a_escala(nw@),
        normalizado(w@) ==> normalizado(nw@) || todo_cero(nw@),
{
    let mut nw = vstd::slice::slice_to_vec(w);
    let valor_previo: u64 = nw[i];
    let suma: i128 = valor_previo as i128 + paso as i128;
    let v: u64 = if suma < 0 {
        0
    } else if suma > u64::MAX as i128 {
        u64::MAX
    } else {
        suma as u64
    };
    nw[i] = v;
    proof {
        lema_normalizar(nw@);
        lema_maximo(nw@, nw@.len());
        if normalizado(w@) && !(valor_previo == UNO || v > UNO) {
            let k = choose|k: int| 0 <= k < w@.len() && #[trigger] w@[k] == UNO;
            assert(nw@[k] == UNO);
        }
        if v > UNO {
            assert(nw@[i as int] <= maximo(nw@, nw@.len()));
        }
    }
    if valor_previo == UNO || v > UNO {
        normalizar(&mut nw);
    }
    nw
}

/// The alternative neighbour operator: position `i` moves by a normal
/// step of standard deviation 0.3.
pub fn vecino_bl_mut2<R: Ruido>(w: &[u64], i: usize, rng: &mut Isaac64Rng, ruido: &R) -> (nw: Vec<
    u64,
>)
    requires
        i < w@.len(),
    ensures
        exists|paso: i64| nw@ == vecino_bl_mut2_spec(w@, i as int, paso),
        nw@.len() == w@.len(),
        a_escala(w@) ==> a_escala(nw@),
        normalizado(w@) ==> normalizado(nw@) || todo_cero(nw@),
{
    let paso = ruido.normal(rng, DESVIACION_VECINO);
    vecino_bl_mut2_con(w, i, paso)
}


/// The neighbour operators that the engines can be run with.
#[derive(Clone, Copy, Debug, PartialEq, Eq, Structural)]
pub enum Vecino {
    /// The default operator, `vecino_bl`.
    Bl,
    /// The alternative operator, `vecino_bl_mut2`.
    BlMut2,
}

/// The neighbour that `vecino` gives for the step `paso` at position `i`.
pub open spec fn vecino_spec(vecino: Vecino, w: Seq<u64>, i: int, paso: i64) -> Seq<u64> {
    match vecino {
        Vecino::Bl => vecino_bl_spec(w, i, paso),
        Vecino::BlMut2 => vecino_bl_mut2_spec(w, i, paso),
    }
}

/// The neighbour of a normalized vector is normalized or all zeros,
/// whatever the step, and has the length of the vector.
pub proof fn lema_vecino_normal(vecino: Vecino, w: Seq<u64>, i: int, paso: i64)
    requires
        0 <= i < w.len(),
    ensures
        vecino_spec(vecino, w, i, paso).len() == w.len(),
        normalizado(w) ==> normalizado(vecino_spec(vecino, w, i, paso)) || todo_cero(
            vecino_spec(vecino, w, i, paso),
        ),
{
    match vecino {
        Vecino::Bl => {
            let v = recortar_spec(w[i] + paso) as u64;
            let nw = w.update(i, v);
            lema_normalizar(nw);
            if normalizado(w) && !(w[i] == UNO && v != UNO) {
                let k = choose|k: int| 0 <= k < w.len() && #[trigger] w[k] == UNO;
                assert(nw[k] == UNO);
            }
        },
        Vecino::BlMut2 => {
            let v = saturar_spec(w[i] + paso) as u64;
            let nw = w.update(i, v);
            lema_normalizar(nw);
            lema_maximo(nw, nw.len());
            if normalizado(w) && !(w[i] == UNO || v > UNO) {
                let k = choose|k: int| 0 <= k < w.len() && #[trigger] w[k] == UNO;
                assert(nw[k] == UNO);
            }
            if v > UNO {
                assert(nw[i] <= maximo(nw, nw.len()));
            }
        },
    }
}

/// Applies a neighbour operator at position `i`.
pub fn aplicar_vecino<R: Ruido>(
    vecino: Vecino,
    w: &[u64],
    i: usize,
    rng: &mut Isaac64Rng,
    ruido: &R,
) -> (nw: Vec<u64>)
    requires
        i < w@.len(),
    ensures
        exists|paso: i64| nw@ == vecino_spec(vecino, w@, i as int, paso),
        nw@.len() == w@.len(),
        a_escala(w@) ==> a_escala(nw@),
        normalizado(w@) ==> normalizado(nw@) || todo_cero(nw@),
{
    match vecino {
        Vecino::Bl => {
            let nw = vecino_bl(w, i, rng, ruido);
            proof {
                let paso = choose|paso: i64| nw@ == vecino_bl_spec(w@, i as int, paso);
                assert(nw@ == vecino_spec(vecino, w@, i as int, paso));
            }
            nw
        },
        Vecino::BlMut2 => {
            let nw = vecino_bl_mut2(w, i, rng, ruido);
            proof {
                let paso = choose|paso: i64| nw@ == vecino_bl_mut2_spec(w@, i as int, paso);
                assert(nw@ == vecino_spec(vecino, w@, i as int, paso));
            }
            nw
        },
    }
}

/// State of a local search: the best solution so far with its score, the
/// cursor over the visiting order, the number of whole passes over the
/// attributes since the last improvement, and the number of evaluations
/// of the objective function made so far.
pub struct EstadoBusqueda {
    pub w: Vec<u64>,
    pub fw: u64,
    pub atr: usize,
    pub n_ciclos: usize,
    pub evaluaciones: usize,
}

impl EstadoBusqueda {
    /// The state as mathematical values, with the answer of its last step.
    pub open spec fn modelo(&self, fin: bool) -> PasoBusqueda {
        PasoBusqueda {
            w: self.w@,
            fw: self.fw,
            atr: self.atr as int,
            n_ciclos: self.n_ciclos as int,
            evaluaciones: self.evaluaciones as int,
            fin,
        }
    }

    /// The state before the first neighbour: `w` has been evaluated once.
    pub fn new(w: Vec<u64>, fw: u64) -> (e: EstadoBusqueda)
        ensures
            e.w == w,
            e.fw == fw,
            e.atr == 0,
            e.n_ciclos == 0,
            e.evaluaciones == 1,
    {
        EstadoBusqueda { w, fw, atr: 0, n_ciclos: 0, evaluaciones: 1 }
    }

    /// Takes in the neighbour `nw` of score `fnw`.  One that is strictly
    /// better becomes the solution and the scan starts again; otherwise
    /// the cursor moves on, and a pass is counted when it wraps round.
    /// Returns whether the search is over: `max_ciclos` passes have gone
    /// by without an improvement.
    pub fn avanzar(&mut self, nw: Vec<u64>, fnw: u64, n_atributos: usize, max_ciclos: usize) -> (fin:
        bool)
        requires
            old(self).atr < n_atributos,
            old(self).n_ciclos < old(self).evaluaciones < usize::MAX,
        ensures
            final(self).modelo(fin) == avance(
                old(self).modelo(false),
                nw@,
                fnw,
                n_atributos as int,
                max_ciclos as int,
            ),
            final(self).evaluaciones == old(self).evaluaciones + 1,
            final(self).fw >= old(self).fw,
            final(self).atr < n_atributos,
            final(self).n_ciclos < final(self).evaluaciones,
            fnw > old(self).fw ==> {
                &&& final(self).w == nw
                &&& final(self).fw == fnw
                &&& final(self).atr == 0
                &&& final(self).n_ciclos == 0
                &&& !fin
            },
            fnw <= old(self).fw ==> final(self).w == old(self).w && final(self).fw == old(self).fw,
            fnw <= old(self).fw && old(self).atr + 1 < n_atributos ==> {
                &&& final(self).atr == old(self).atr + 1
                &&& final(self).n_ciclos == old(self).n_ciclos
                &&& !fin
            },
            fnw <= old(self).fw && old(self).atr + 1 == n_atributos ==> {
                &&& final(self).atr == 0
                &&& final(self).n_ciclos == old(self).n_ciclos + 1
                &&& fin == (final(self).n_ciclos == max_ciclos)
            },
    {
        self.evaluaciones = self.evaluaciones + 1;
        if fnw > self.fw {
            self.w = nw;
            self.fw = fnw;
            self.atr = 0;
            self.n_ciclos = 0;
            false
        } else {
            self.atr = self.atr + 1;
            if self.atr == n_atributos {
                self.atr = 0;
                self.n_ciclos = self.n_ciclos + 1;
                self.n_ciclos == max_ciclos
            } else {
                false
            }
        }
    }
}

/// The state of a local search as mathematical values, with the answer
/// that its last step gave: whether the search is over.
pub ghost struct PasoBusqueda {
    pub w: Seq<u64>,
    pub fw: u64,
    pub atr: int,
    pub n_ciclos: int,
    pub evaluaciones: int,
    pub fin: bool,
}

/// The state that follows `a` when the neighbour `nw` of score `fnw`
/// is taken in: what `EstadoBusqueda::avanzar` does.
pub open spec fn avance(
    a: PasoBusqueda,
    nw: Seq<u64>,
    fnw: u64,
    n_atributos: int,
    max_ciclos: int,
) -> PasoBusqueda {
    if fnw > a.fw {
        PasoBusqueda {
            w: nw,
            fw: fnw,
            atr: 0,
            n_ciclos: 0,
            evaluaciones: a.evaluaciones + 1,
            fin: false,
        }
    } else if a.atr + 1 < n_atributos {
        PasoBusqueda {
            w: a.w,
            fw: a.fw,
            atr: a.atr + 1,
            n_ciclos: a.n_ciclos,
            evaluaciones: a.evaluaciones + 1,
            fin: false,
        }
    } else {
        PasoBusqueda {
            w: a.w,
            fw: a.fw,
            atr: 0,
            n_ciclos: a.n_ciclos + 1,
            evaluaciones: a.evaluaciones + 1,
            fin: a.n_ciclos + 1 == max_ciclos,
        }
    }
}

/// The state of a local search from `w_base` after the first `k` of
/// the steps `pasos`: each step moves the attribute under the cursor by
/// the neighbour operator, and the neighbour is taken in with its score.
pub open spec fn recorrido(
    e: Seq<Dato>,
    w_base: Seq<u64>,
    vecino: Vecino,
    orden: Seq<usize>,
    max_ciclos: int,
    pasos: Seq<i64>,
    k: nat,
) -> PasoBusqueda
    decreases k,
{
    if k == 0 {
        PasoBusqueda {
            w: w_base,
            fw: puntuacion(e, w_base) as u64,
            atr: 0,
            n_ciclos: 0,
            evaluaciones: 1,
            fin: false,
        }
    } else {
        let a = recorrido(e, w_base, vecino, orden, max_ciclos, pasos, (k - 1) as nat);
        let nw = vecino_spec(vecino, a.w, orden[a.atr] as int, pasos[k - 1]);
        avance(a, nw, puntuacion(e, nw) as u64, orden.len() as int, max_ciclos)
    }
}

/// The first `k` steps of a local search depend on the first `k` steps drawn alone.
proof fn lema_recorrido_prefijo(
    e: Seq<Dato>,
    w_base: Seq<u64>,
    vecino: Vecino,
    orden: Seq<usize>,
    max_ciclos: int,
    pasos_a: Seq<i64>,
    pasos_b: Seq<i64>,
    k: nat,
)
    requires
        forall|j: int| 0 <= j < k ==> pasos_a[j] == pasos_b[j],
    ensures
        recorrido(e, w_base, vecino, orden, max_ciclos, pasos_a, k) == recorrido(
            e,
            w_base,
            vecino,
            orden,
            max_ciclos,
            pasos_b,
            k,
        ),
    decreases k,
{
    if k > 0 {
        lema_recorrido_prefijo(e, w_base, vecino, orden, max_ciclos, pasos_a, pasos_b, (k - 1) as nat);
    }
}

/// `f` is where a local search from `w_base` ends for some steps: the
/// search goes on while it is not over and evaluations are left, and
/// stops as soon as it is over or none is left.
pub open spec fn es_busqueda(
    e: Seq<Dato>,
    w_base: Seq<u64>,
    vecino: Vecino,
    orden: Seq<usize>,
    max_evaluaciones: int,
    max_ciclos: int,
    f: PasoBusqueda,
) -> bool {
    exists|pasos: Seq<i64>|
        {
            &&& f == #[trigger] recorrido(e, w_base, vecino, orden, max_ciclos, pasos, pasos.len())
            &&& f.fin || f.evaluaciones >= max_evaluaciones
            &&& forall|k: nat|
                k < pasos.len() ==> !(#[trigger] recorrido(
                    e,
                    w_base,
                    vecino,
                    orden,
                    max_ciclos,
                    pasos,
                    k,
                )).fin && recorrido(e, w_base, vecino, orden, max_ciclos, pasos, k).evaluaciones
                    < max_evaluaciones
        }
}

/// The scores that the attributes reach alone, one by one.
pub open spec fn puntos_individuales(e: Seq<Dato>) -> Seq<u64> {
    Seq::new(
        num_atributos(e),
        |a: int| puntuacion(e, unitario(num_atributos(e), a)) as u64,
    )
}

/// `w` is what a local search from `w_base` may return: the solution
/// of the state where the search ends for some steps, the attributes
/// visited in the order of the records or, if `ordenada`, by descending
/// score of each attribute alone.
pub open spec fn es_resultado_local(
    e: Seq<Dato>,
    w_base: Seq<u64>,
    vecino: Vecino,
    ordenada: bool,
    max_evaluaciones: int,
    max_ciclos: int,
    w: Seq<u64>,
) -> bool {
    exists|orden: Seq<usize>, f: PasoBusqueda|
        {
            &&& ordenada ==> ordenado_por(puntos_individuales(e), orden)
            &&& !ordenada ==> orden == identidad(num_atributos(e))
            &&& #[trigger] es_busqueda(e, w_base, vecino, orden, max_evaluaciones, max_ciclos, f)
            &&& w == f.w
        }
}

/// The solution is normalized, or all zeros, or scores above the
/// vector of zeros.  A search from a start that is normalized or all
/// zeros ends so: a neighbour of a normalized vector is normalized or
/// all zeros, and what follows the vector of zeros scores above it.
pub open spec fn normal_o_sobre_cero(e: Seq<Dato>, w: Seq<u64>) -> bool {
    normalizado(w) || todo_cero(w) || puntuacion(e, w) > puntuacion(e, ceros(w.len()))
}

/// An order in which to visit the attributes of a sample.
pub open spec fn orden_valido(entrenamiento: Seq<Dato>, orden: Seq<usize>) -> bool {
    &&& orden.len() == num_atributos(entrenamiento)
    &&& forall|k: int| 0 <= k < orden.len() ==> #[trigger] orden[k] < num_atributos(entrenamiento)
}

/// First-improvement local search from `w_base`, visiting the attributes
/// in the order `orden`.  It stops after `max_evaluaciones` evaluations
/// of the objective function, that of `w_base` included, or after
/// `max_ciclos` passes over all attributes without an improvement.
pub fn buscar_localmente<R: Ruido>(
    entrenamiento: &[Dato],
    w_base: &[u64],
    vecino: Vecino,
    orden: &[usize],
    max_evaluaciones: usize,
    max_ciclos: usize,
    rng: &mut Isaac64Rng,
    ruido: &R,
) -> (e: EstadoBusqueda)
    requires
        muestra_valida(entrenamiento@),
        pesos_validos(entrenamiento@, w_base@),
        orden_valido(entrenamiento@, orden@),
    ensures
        pesos_validos(entrenamiento@, e.w@),
        e.fw == puntuacion(entrenamiento@, e.w@),
        e.fw >= puntuacion(entrenamiento@, w_base@),
        1 <= e.evaluaciones,
        e.evaluaciones <= max_evaluaciones || e.evaluaciones == 1,
        e.evaluaciones >= max_evaluaciones || e.n_ciclos == max_ciclos,
        max_evaluaciones <= 1 ==> e.w@ == w_base@,
        max_evaluaciones > 1 ==> e.evaluaciones >= 2,
        e.atr < orden@.len(),
        e.evaluaciones >= 1 + e.n_ciclos * orden@.len() + e.atr,
        e.n_ciclos == max_ciclos ==> e.evaluaciones >= 1 + max_ciclos * orden@.len(),
        e.w@ == w_base@ || e.fw > puntuacion(entrenamiento@, w_base@),
        exists|fin: bool|
            es_busqueda(
                entrenamiento@,
                w_base@,
                vecino,
                orden@,
                max_evaluaciones as int,
                max_ciclos as int,
                #[trigger] e.modelo(fin),
            ),
        normalizado(w_base@) || todo_cero(w_base@) ==> normal_o_sobre_cero(entrenamiento@, e.w@),
{
    let n_atributos: usize = orden.len();
    proof {
        lema_muestra_evaluable(entrenamiento@, w_base@);
    }
    let w = vstd::slice::slice_to_vec(w_base);
    let fw = evaluar(entrenamiento, w_base);
    let mut e = EstadoBusqueda::new(w, fw);
    let mut fin = false;
    let ghost mut pasos: Seq<i64> = Seq::empty();
    proof {
        if todo_cero(w_base@) {
            lema_ceros(w_base@);
        }
    }
    while !fin && e.evaluaciones < max_evaluaciones
        invariant
            e.evaluaciones == 1 + pasos.len(),
            e.modelo(fin) == recorrido(
                entrenamiento@,
                w_base@,
                vecino,
                orden@,
                max_ciclos as int,
                pasos,
                pasos.len(),
            ),
            forall|k: nat|
                k < pasos.len() ==> !(#[trigger] recorrido(
                    entrenamiento@,
                    w_base@,
                    vecino,
                    orden@,
                    max_ciclos as int,
                    pasos,
                    k,
                )).fin && recorrido(
                    entrenamiento@,
                    w_base@,
                    vecino,
                    orden@,
                    max_ciclos as int,
                    pasos,
                    k,
                ).evaluaciones < max_evaluaciones,
            e.evaluaciones >= 1 + e.n_ciclos * n_atributos + e.atr,
            e.w@ == w_base@ || e.fw > puntuacion(entrenamiento@, w_base@),
            normalizado(w_base@) || todo_cero(w_base@) ==> normal_o_sobre_cero(
                entrenamiento@,
                e.w@,
            ),
            muestra_valida(entrenamiento@),
            orden_valido(entrenamiento@, orden@),
            n_atributos == orden@.len(),
            pesos_validos(entrenamiento@, e.w@),
            e.fw == puntuacion(entrenamiento@, e.w@),
            e.fw >= puntuacion(entrenamiento@, w_base@),
            e.atr < n_atributos,
            e.n_ciclos < e.evaluaciones,
            1 <= e.evaluaciones,
            e.evaluaciones <= max_evaluaciones || e.evaluaciones == 1,
            fin ==> e.n_ciclos == max_ciclos,
            max_evaluaciones <= 1 ==> e.w@ == w_base@,
        decreases max_evaluaciones - e.evaluaciones,
    {
        let atr: usize = orden[e.atr];
        let nw = aplicar_vecino(vecino, e.w.as_slice(), atr, rng, ruido);
        let ghost previo = e;
        let ghost pasos_previos = pasos;
        let ghost paso = choose|paso: i64| nw@ == vecino_spec(vecino, e.w@, atr as int, paso);
        proof {
            lema_muestra_evaluable(entrenamiento@, nw@);
            pasos = pasos.push(paso);
            assert forall|k: nat| k <= pasos_previos.len() implies #[trigger] recorrido(
                entrenamiento@,
                w_base@,
                vecino,
                orden@,
                max_ciclos as int,
                pasos,
                k,
            ) == recorrido(entrenamiento@, w_base@, vecino, orden@, max_ciclos as int, pasos_previos, k) by {
                lema_recorrido_prefijo(
                    entrenamiento@,
                    w_base@,
                    vecino,
                    orden@,
                    max_ciclos as int,
                    pasos_previos,
                    pasos,
                    k,
                );
            }
            if todo_cero(e.w@) {
                lema_ceros(e.w@);
            }
            if todo_cero(nw@) {
                lema_ceros(nw@);
            }
            assert((e.n_ciclos + 1) * n_atributos == e.n_ciclos * n_atributos + n_atributos)
                by (nonlinear_arith);
            assert(0 * n_atributos == 0);
        }
        let fnw = evaluar(entrenamiento, nw.as_slice());
        let ghost vecino_tomado = nw@;
        fin = e.avanzar(nw, fnw, n_atributos, max_ciclos);
        proof {
            let k = pasos_previos.len();
            let a = recorrido(entrenamiento@, w_base@, vecino, orden@, max_ciclos as int, pasos, k);
            assert(a == previo.modelo(false));
            assert(pasos[k as int] == paso);
            assert(vecino_spec(vecino, a.w, orden@[a.atr] as int, pasos[k as int]) == vecino_tomado);
        }
        assert(e.modelo(fin) == recorrido(
            entrenamiento@,
            w_base@,
            vecino,
            orden@,
            max_ciclos as int,
            pasos,
            pasos.len(),
        ));
    }
    proof {
        if e.n_ciclos == max_ciclos {
            assert(e.n_ciclos * n_atributos == max_ciclos * orden@.len()) by (nonlinear_arith)
                requires
                    e.n_ciclos == max_ciclos,
                    n_atributos == orden@.len(),
            ;
        }
        assert(es_busqueda(
            entrenamiento@,
            w_base@,
            vecino,
            orden@,
            max_evaluaciones as int,
            max_ciclos as int,
            e.modelo(fin),
        ));
    }
    e
}

/// The attributes in the order in which the records hold them.
pub fn orden_natural(n: usize) -> (orden: Vec<usize>)
    ensures
        orden@.len() == n,
        forall|k: int| 0 <= k < n ==> #[trigger] orden@[k] == k,
{
    let mut orden: Vec<usize> = Vec::new();
    let mut k: usize = 0;
    while k < n
        invariant
            k <= n,
            orden@.len() == k,
            forall|j: int| 0 <= j < k ==> #[trigger] orden@[j] == j,
        decreases n - k,
    {
        orden.push(k);
        k += 1;
    }
    orden
}

/// Local search from `w_base` with the given neighbour operator and
/// stopping rules, the attributes taken in the order of the records.
pub fn busqueda_local_generica_desde<R: Ruido>(
    entrenamiento: &[Dato],
    w_base: &[u64],
    vecino: Vecino,
    max_evaluaciones: usize,
    max_ciclos: usize,
    rng: &mut Isaac64Rng,
    ruido: &R,
) -> (w: Vec<u64>)
    requires
        muestra_valida(entrenamiento@),
        pesos_validos(entrenamiento@, w_base@),
    ensures
        pesos_validos(entrenamiento@, w@),
        puntuacion(entrenamiento@, w@) >= puntuacion(entrenamiento@, w_base@),
        max_evaluaciones <= 1 ==> w@ == w_base@,
        w@ == w_base@ || puntuacion(entrenamiento@, w@) > puntuacion(entrenamiento@, w_base@),
        es_resultado_local(
            entrenamiento@,
            w_base@,
            vecino,
            false,
            max_evaluaciones as int,
            max_ciclos as int,
            w@,
        ),
        normalizado(w_base@) || todo_cero(w_base@) ==> normal_o_sobre_cero(entrenamiento@, w@),
{
    let orden = orden_natural(entrenamiento[0].num_atributos());
    assert(orden@ =~= identidad(num_atributos(entrenamiento@)));
    let e = buscar_localmente(
        entrenamiento,
        w_base,
        vecino,
        orden.as_slice(),
        max_evaluaciones,
        max_ciclos,
        rng,
        ruido,
    );
    proof {
        let fin = choose|fin: bool|
            es_busqueda(
                entrenamiento@,
                w_base@,
                vecino,
                orden@,
                max_evaluaciones as int,
                max_ciclos as int,
                #[trigger] e.modelo(fin),
            );
        assert(es_busqueda(
            entrenamiento@,
            w_base@,
            vecino,
            orden@,
            max_evaluaciones as int,
            max_ciclos as int,
            e.modelo(fin),
        ) && e.w@ == e.modelo(fin).w);
    }
    e.w
}


/// The vector that gives weight `UNO` to attribute `a` and zero to the others.
pub open spec fn unitario(n: nat, a: int) -> Seq<u64> {
    Seq::new(n, |i: int| if i == a { UNO } else { 0u64 })
}

/// Builds `unitario(n, a)`.
pub fn peso_unitario(n: usize, a: usize) -> (w: Vec<u64>)
    ensures
        w@ == unitario(n as nat, a as int),
{
    let mut w: Vec<u64> = Vec::new();
    let mut i: usize = 0;
    while i < n
        invariant
            i <= n,
            w@.len() == i,
            forall|j: int| 0 <= j < i ==> #[trigger] w@[j] == (if j == a { UNO } else { 0u64 }),
        decreases n - i,
    {
        w.push(if i == a { UNO } else { 0 });
        i += 1;
    }
    assert(w@ =~= unitario(n as nat, a as int));
    w
}

/// Attribute `a` comes before attribute `b`: it scores higher, or scores
/// the same and comes first in the records.
pub open spec fn precede(puntos: Seq<u64>, a: usize, b: usize) -> bool {
    puntos[a as int] > puntos[b as int] || (puntos[a as int] == puntos[b as int] && a < b)
}

/// `orden` lists every attribute once, each before those it precedes.
pub open spec fn ordenado_por(puntos: Seq<u64>, orden: Seq<usize>) -> bool {
    &&& orden.len() == puntos.len()
    &&& forall|k: int| 0 <= k < orden.len() ==> #[trigger] orden[k] < puntos.len()
    &&& forall|k: int, l: int| 0 <= k < l < orden.len() ==> precede(puntos, orden[k], orden[l])
}

/// Keys that a set hands out in increasing order grow by their first
/// part, and by their second part where the first parts are equal.
proof fn lema_claves_crecientes(claves: Seq<&(u64, usize)>, i: int, j: int)
    requires
        increasing_seq(claves),
        0 <= i < j < claves.len(),
    ensures
        claves[i].0 < claves[j].0 || (claves[i].0 == claves[j].0 && claves[i].1 < claves[j].1),
{
    broadcast use {group_btree_axioms, vstd::laws_cmp::group_laws_cmp};
    assert(vstd::laws_cmp::obeys_cmp::<(u64, usize)>());
    assert(vstd::laws_cmp::obeys_cmp::<&(u64, usize)>());
    axiom_increasing_seq_meaning::<&(u64, usize)>(claves);
    assert((&claves[i]).cmp_spec(&&claves[j]) is Less);
}

/// The attributes by descending score; equal scores keep the order of
/// the records.  Every attribute enters an ordered set under the key
/// `(u64::MAX - score, attribute)`, and the set hands them out in the
/// order of their keys.
pub fn ordenar_por_puntuacion(puntos: &[u64]) -> (orden: Vec<usize>)
    ensures
        ordenado_por(puntos@, orden@),
{
    broadcast use group_btree_axioms;
    let mut arbol: BTreeSet<(u64, usize)> = BTreeSet::new();
    let mut a: usize = 0;
    while a < puntos.len()
        invariant
            a <= puntos@.len(),
            arbol@.finite(),
            arbol@.len() == a,
            forall|x: (u64, usize)|
                arbol@.contains(x) ==> x.1 < a && x.0 == u64::MAX - puntos@[x.1 as int],
        decreases puntos@.len() - a,
    {
        arbol.insert((u64::MAX - puntos[a], a));
        a += 1;
    }
    let ghost claves = arbol.iter().remaining();
    let mut orden: Vec<usize> = Vec::new();
    for clave in it: arbol.iter()
        invariant
            it.seq() == claves,
            orden@.len() == it.index(),
            forall|i: int| 0 <= i < orden@.len() ==> orden@[i] == it.seq()[i].1,
    {
        orden.push(clave.1);
    }
    proof {
        assert(orden@.len() == claves.len());
        assert forall|k: int| 0 <= k < orden@.len() implies #[trigger] orden@[k] < puntos@.len()
            && claves[k].0 == u64::MAX - puntos@[orden@[k] as int] by {
            assert(claves.unref().to_set().contains(claves.unref()[k]));
            assert(arbol@.contains(*claves[k]));
        }
        assert forall|k: int, l: int| 0 <= k < l < orden@.len() implies precede(
            puntos@,
            orden@[k],
            orden@[l],
        ) by {
            lema_claves_crecientes(claves, k, l);
            assert(orden@[k] < puntos@.len());
            assert(orden@[l] < puntos@.len());
        }
    }
    orden
}

/// The score that each attribute reaches alone: that of the vector that
/// gives it weight `UNO` and prunes all the others.
pub fn puntuaciones_individuales(entrenamiento: &[Dato]) -> (puntos: Vec<u64>)
    requires
        muestra_valida(entrenamiento@),
    ensures
        puntos@.len() == num_atributos(entrenamiento@),
        forall|a: int|
            0 <= a < puntos@.len() ==> #[trigger] puntos@[a] == puntuacion(
                entrenamiento@,
                unitario(num_atributos(entrenamiento@), a),
            ),
{
    let n: usize = entrenamiento[0].num_atributos();
    let mut puntos: Vec<u64> = Vec::new();
    let mut a: usize = 0;
    while a < n
        invariant
            a <= n,
            n == num_atributos(entrenamiento@),
            muestra_valida(entrenamiento@),
            puntos@.len() == a,
            forall|b: int|
                0 <= b < a ==> #[trigger] puntos@[b] == puntuacion(
                    entrenamiento@,
                    unitario(n as nat, b),
                ),
        decreases n - a,
    {
        let w = peso_unitario(n, a);
        proof {
            lema_muestra_evaluable(entrenamiento@, w@);
        }
        puntos.push(evaluar(entrenamiento, w.as_slice()));
        a += 1;
    }
    puntos
}

/// Local search from `w_base` that visits first the attributes that
/// classify the sample best on their own.
pub fn busqueda_local_ordenada_desde<R: Ruido>(
    entrenamiento: &[Dato],
    w_base: &[u64],
    vecino: Vecino,
    max_evaluaciones: usize,
    max_ciclos: usize,
    rng: &mut Isaac64Rng,
    ruido: &R,
) -> (w: Vec<u64>)
    requires
        muestra_valida(entrenamiento@),
        pesos_validos(entrenamiento@, w_base@),
    ensures
        pesos_validos(entrenamiento@, w@),
        puntuacion(entrenamiento@, w@) >= puntuacion(entrenamiento@, w_base@),
        max_evaluaciones <= 1 ==> w@ == w_base@,
        w@ == w_base@ || puntuacion(entrenamiento@, w@) > puntuacion(entrenamiento@, w_base@),
        es_resultado_local(
            entrenamiento@,
            w_base@,
            vecino,
            true,
            max_evaluaciones as int,
            max_ciclos as int,
            w@,
        ),
        normalizado(w_base@) || todo_cero(w_base@) ==> normal_o_sobre_cero(entrenamiento@, w@),
{
    let puntos = puntuaciones_individuales(entrenamiento);
    assert(puntos@ =~= puntos_individuales(entrenamiento@));
    let orden = ordenar_por_puntuacion(puntos.as_slice());
    let e = buscar_localmente(
        entrenamiento,
        w_base,
        vecino,
        orden.as_slice(),
        max_evaluaciones,
        max_ciclos,
        rng,
        ruido,
    );
    proof {
        let fin = choose|fin: bool|
            es_busqueda(
                entrenamiento@,
                w_base@,
                vecino,
                orden@,
                max_evaluaciones as int,
                max_ciclos as int,
                #[trigger] e.modelo(fin),
            );
        assert(es_busqueda(
            entrenamiento@,
            w_base@,
            vecino,
            orden@,
            max_evaluaciones as int,
            max_ciclos as int,
            e.modelo(fin),
        ) && e.w@ == e.modelo(fin).w);
    }
    e.w
}


/// The vector that gives every attribute the weight `UNO`.
pub open spec fn unos(n: nat) -> Seq<u64> {
    Seq::new(n, |i: int| UNO)
}

/// A vector of `n` weights, all `UNO`.
pub fn todos_unos(n: usize) -> (w: Vec<u64>)
    ensures
        w@ == unos(n as nat),
{
    let mut w: Vec<u64> = Vec::new();
    let mut i: usize = 0;
    while i < n
        invariant
            i <= n,
            w@.len() == i,
            forall|j: int| 0 <= j < i ==> #[trigger] w@[j] == UNO,
        decreases n - i,
    {
        w.push(UNO);
        i += 1;
    }
    assert(w@ =~= unos(n as nat));
    w
}

/// Record `i` has a friend and an enemy.
pub open spec fn acompanado(vm: Seq<Dato>, i: int) -> bool {
    hay_amigo(vm, i) && hay_enemigo(vm, vm[i]@)
}

/// A sample that RELIEF can weight: every attribute is real, and every
/// record has a friend and an enemy.
pub open spec fn relief_aplicable(vm: Seq<Dato>) -> bool {
    &&& muestra_valida(vm)
    &&& vm[0]@.categoricos.len() == 0
    &&& forall|i: int| 0 <= i < vm.len() ==> #[trigger] acompanado(vm, i)
}

/// Decides `relief_aplicable`.
pub fn es_relief_aplicable(vm: &[Dato]) -> (b: bool)
    requires
        muestra_valida(vm@),
    ensures
        b == relief_aplicable(vm@),
{
    if vm[0].num_categoricos() != 0 {
        return false;
    }
    let mut i: usize = 0;
    while i < vm.len()
        invariant
            i <= vm@.len(),
            forall|j: int| 0 <= j < i ==> #[trigger] acompanado(vm@, j),
        decreases vm@.len() - i,
    {
        if !tiene_amigo(vm, i) || !tiene_enemigo(vm, &vm[i]) {
            assert(!acompanado(vm@, i as int));
            return false;
        }
        assert(acompanado(vm@, i as int));
        i += 1;
    }
    true
}

/// The nearest enemy of record `i` under uniform weights.
pub open spec fn enemigo_de(vm: Seq<Dato>, i: int) -> DatoModelo {
    vm[primer_minimo(
        vm,
        vm[i]@,
        unos(num_atributos(vm)),
        Criterio::OtraClase,
        None,
        vm.len(),
    )]@
}

/// The nearest friend of record `i` under uniform weights.
pub open spec fn amigo_de(vm: Seq<Dato>, i: int) -> DatoModelo {
    vm[primer_minimo(
        vm,
        vm[i]@,
        unos(num_atributos(vm)),
        Criterio::MismaClase,
        Some(i as usize),
        vm.len(),
    )]@
}

/// Absolute difference of two attribute values.
pub open spec fn separacion(a: u64, b: u64) -> int {
    if a >= b {
        a - b
    } else {
        b - a
    }
}

/// What record `i` adds to the weight of attribute `k`: how far it lies
/// from its nearest enemy less how far it lies from its nearest friend.
pub open spec fn aporte(vm: Seq<Dato>, i: int, k: int) -> int {
    separacion(vm[i]@.reales[k], enemigo_de(vm, i).reales[k]) - separacion(
        vm[i]@.reales[k],
        amigo_de(vm, i).reales[k],
    )
}

/// Sum of what the first `n` records add to the weight of attribute `k`.
pub open spec fn acumulado(vm: Seq<Dato>, k: int, n: nat) -> int
    decreases n,
{
    if n == 0 {
        0
    } else {
        acumulado(vm, k, (n - 1) as nat) + aporte(vm, n - 1, k)
    }
}

/// Largest accumulated weight among the first `m` attributes, or zero
/// when none is positive.
pub open spec fn maximo_acumulado(vm: Seq<Dato>, m: nat) -> int
    decreases m,
{
    if m == 0 {
        0
    } else {
        let previo = maximo_acumulado(vm, (m - 1) as nat);
        let este = acumulado(vm, m - 1, vm.len());
        if este > previo {
            este
        } else {
            previo
        }
    }
}

/// The RELIEF weights: each accumulated weight divided by the largest;
/// one that is not positive becomes zero.
pub open spec fn relief_spec(vm: Seq<Dato>) -> Seq<u64> {
    Seq::new(
        num_atributos(vm),
        |k: int|
            {
                let p = acumulado(vm, k, vm.len());
                if p <= 0 {
                    0u64
                } else {
                    (p * UNO / maximo_acumulado(vm, num_atributos(vm))) as u64
                }
            },
    )
}

/// `maximo_acumulado` bounds the accumulated weights it ranges over and,
/// when positive, is one of them.
pub proof fn lema_maximo_acumulado(vm: Seq<Dato>, m: nat)
    ensures
        maximo_acumulado(vm, m) >= 0,
        forall|k: int| 0 <= k < m ==> #[trigger] acumulado(vm, k, vm.len()) <= maximo_acumulado(vm, m),
        maximo_acumulado(vm, m) > 0 ==> exists|k: int|
            0 <= k < m && #[trigger] acumulado(vm, k, vm.len()) == maximo_acumulado(vm, m),
    decreases m,
{
    if m > 0 {
        lema_maximo_acumulado(vm, (m - 1) as nat);
        let previo = maximo_acumulado(vm, (m - 1) as nat);
        let este = acumulado(vm, m - 1, vm.len());
        if este > previo {
        } else if previo > 0 {
            let k = choose|k: int|
                0 <= k < m - 1 && #[trigger] acumulado(vm, k, vm.len()) == previo;
            assert(acumulado(vm, k, vm.len()) == maximo_acumulado(vm, m));
        }
    }
}

/// The greedy RELIEF weighting: every record pulls the weight of each
/// attribute up by its distance to its nearest enemy and down by its
/// distance to its nearest friend.
pub fn relief(entrenamiento: &[Dato]) -> (w: Vec<u64>)
    requires
        relief_aplicable(entrenamiento@),
    ensures
        w@ == relief_spec(entrenamiento@),
        pesos_validos(entrenamiento@, w@),
        normalizado(w@) || todo_cero(w@),
{
    let n_atributos: usize = entrenamiento[0].num_atributos();
    let w_euc = todos_unos(n_atributos);
    let mut acc: Vec<i128> = Vec::new();
    let mut k: usize = 0;
    while k < n_atributos
        invariant
            k <= n_atributos,
            acc@.len() == k,
            forall|j: int| 0 <= j < k ==> #[trigger] acc@[j] == 0,
        decreases n_atributos - k,
    {
        acc.push(0);
        k += 1;
    }
    let ghost vm = entrenamiento@;
    proof {
        lema_muestra_evaluable(vm, w_euc@);
    }
    let mut i: usize = 0;
    while i < entrenamiento.len()
        invariant
            i <= vm.len(),
            vm == entrenamiento@,
            relief_aplicable(vm),
            n_atributos == num_atributos(vm),
            w_euc@ == unos(n_atributos as nat),
            pesos_validos(vm, w_euc@),
            acc@.len() == n_atributos,
            forall|j: int| 0 <= j < n_atributos ==> #[trigger] acc@[j] == acumulado(vm, j, i as nat),
            forall|j: int| 0 <= j < n_atributos ==> -(i * UNO) <= #[trigger] acc@[j] <= i * UNO,
        decreases vm.len() - i,
    {
        let ei = &entrenamiento[i];
        proof {
            lema_muestra_evaluable(vm, w_euc@);
            assert(acompanado(vm, i as int));
        }
        let ee = get_enemigo_mas_cercano(entrenamiento, ei, w_euc.as_slice());
        let ea = get_amigo_mas_cercano(entrenamiento, i, w_euc.as_slice());
        proof {
            lema_primer_minimo(vm, vm[i as int]@, w_euc@, Criterio::OtraClase, None, vm.len());
            lema_primer_minimo(
                vm,
                vm[i as int]@,
                w_euc@,
                Criterio::MismaClase,
                Some(i),
                vm.len(),
            );
            assert(ee@ == enemigo_de(vm, i as int));
            assert(ea@ == amigo_de(vm, i as int));
            assert((i + 1) * UNO == i * UNO + UNO) by (nonlinear_arith);
            assert(i * UNO <= usize::MAX * UNO) by (nonlinear_arith)
                requires
                    i <= usize::MAX,
            ;
        }
        let mut j: usize = 0;
        while j < n_atributos
            invariant
                j <= n_atributos,
                i < vm.len(),
                vm == entrenamiento@,
                relief_aplicable(vm),
                n_atributos == num_atributos(vm),
                *ei == vm[i as int],
                ee@ == enemigo_de(vm, i as int),
                ea@ == amigo_de(vm, i as int),
                ee@.bien_formado() && ee@.misma_forma(vm[0]@),
                ea@.bien_formado() && ea@.misma_forma(vm[0]@),
                acc@.len() == n_atributos,
                (i + 1) * UNO == i * UNO + UNO,
                i * UNO <= usize::MAX * UNO,
                forall|l: int| 0 <= l < j ==> #[trigger] acc@[l] == acumulado(vm, l, (i + 1) as nat),
                forall|l: int|
                    j <= l < n_atributos ==> #[trigger] acc@[l] == acumulado(vm, l, i as nat),
                forall|l: int|
                    0 <= l < n_atributos ==> -((i + 1) * UNO) <= #[trigger] acc@[l] <= (i + 1)
                        * UNO,
                forall|l: int| j <= l < n_atributos ==> -(i * UNO) <= #[trigger] acc@[l] <= i * UNO,
            decreases n_atributos - j,
        {
            let x: u64 = ei.atributo(j);
            let xe: u64 = ee.atributo(j);
            let xa: u64 = ea.atributo(j);
            let de: i128 = if x >= xe {
                (x - xe) as i128
            } else {
                (xe - x) as i128
            };
            let da: i128 = if x >= xa {
                (x - xa) as i128
            } else {
                (xa - x) as i128
            };
            assert(de - da == aporte(vm, i as int, j as int));
            let previo: i128 = acc[j];
            acc[j] = previo + (de - da);
            j += 1;
        }
        i += 1;
    }
    let mut wmax: i128 = 0;
    let mut m: usize = 0;
    while m < n_atributos
        invariant
            m <= n_atributos,
            acc@.len() == n_atributos,
            forall|j: int|
                0 <= j < n_atributos ==> #[trigger] acc@[j] == acumulado(vm, j, vm.len()),
            wmax == maximo_acumulado(vm, m as nat),
        decreases n_atributos - m,
    {
        if acc[m] > wmax {
            wmax = acc[m];
        }
        m += 1;
    }
    proof {
        lema_maximo_acumulado(vm, n_atributos as nat);
        assert(vm.len() * UNO <= usize::MAX * UNO) by (nonlinear_arith)
            requires
                vm.len() <= usize::MAX,
        ;
    }
    let mut w: Vec<u64> = Vec::new();
    let mut k2: usize = 0;
    while k2 < n_atributos
        invariant
            k2 <= n_atributos,
            n_atributos == num_atributos(vm),
            acc@.len() == n_atributos,
            forall|j: int|
                0 <= j < n_atributos ==> #[trigger] acc@[j] == acumulado(vm, j, vm.len()),
            forall|j: int| 0 <= j < n_atributos ==> #[trigger] acc@[j] <= wmax,
            forall|j: int| 0 <= j < n_atributos ==> #[trigger] acc@[j] <= usize::MAX * UNO,
            wmax == maximo_acumulado(vm, n_atributos as nat),
            w@.len() == k2,
            forall|j: int| 0 <= j < k2 ==> #[trigger] w@[j] == relief_spec(vm)[j],
            forall|j: int| 0 <= j < k2 ==> #[trigger] w@[j] <= UNO,
            forall|j: int| 0 <= j < k2 && acc@[j] == wmax && wmax > 0 ==> #[trigger] w@[j] == UNO,
            forall|j: int| 0 <= j < k2 && acc@[j] <= 0 ==> #[trigger] w@[j] == 0,
        decreases n_atributos - k2,
    {
        let p: i128 = acc[k2];
        if p <= 0 {
            w.push(0);
        } else {
            proof {
                assert(0 <= p * UNO / (wmax as int) <= UNO) by (nonlinear_arith)
                    requires
                        0 < p <= wmax,
                        UNO == 1_000_000,
                ;
                assert(p * UNO <= usize::MAX * UNO * UNO) by (nonlinear_arith)
                    requires
                        0 < p <= usize::MAX * UNO,
                ;
                assert(wmax * UNO / (wmax as int) == UNO) by (nonlinear_arith)
                    requires
                        wmax > 0,
                ;
            }
            let q: i128 = p * (UNO as i128) / wmax;
            w.push(q as u64);
        }
        k2 += 1;
    }
    proof {
        assert(w@ =~= relief_spec(vm));
        if wmax > 0 {
            let k = choose|k: int|
                0 <= k < n_atributos && #[trigger] acumulado(vm, k, vm.len()) == wmax;
            assert(acc@[k] == wmax);
            assert(w@[k] == UNO);
        } else {
            assert forall|j: int| 0 <= j < w@.len() implies #[trigger] w@[j] == 0 by {
                assert(acc@[j] <= wmax);
            }
        }
    }
    w
}

/// The weights of the plain nearest-neighbour rule: every attribute counts in full.
pub fn uno_nn(entrenamiento: &[Dato]) -> (w: Vec<u64>)
    requires
        muestra_valida(entrenamiento@),
    ensures
        w@ == unos(num_atributos(entrenamiento@)),
        pesos_validos(entrenamiento@, w@),
{
    todos_unos(entrenamiento[0].num_atributos())
}


/// Outcome of trying candidates in turn, each taken only if it scores
/// strictly above the best so far: the position of the last one taken
/// among the first `n`, or -1 if none was, and the best score.
pub open spec fn eleccion(
    e: Seq<Dato>,
    base: nat,
    candidatos: Seq<Option<Seq<u64>>>,
    n: nat,
) -> (int, nat)
    decreases n,
{
    if n == 0 {
        (-1, base)
    } else {
        let previa = eleccion(e, base, candidatos, (n - 1) as nat);
        match candidatos[n - 1] {
            Some(c) => if puntuacion(e, c) > previa.1 {
                (n - 1, puntuacion(e, c))
            } else {
                previa
            },
            None => previa,
        }
    }
}

/// The candidate chosen is the first among those of the highest score,
/// and is chosen only if it beats the base score.
pub proof fn lema_eleccion(e: Seq<Dato>, base: nat, candidatos: Seq<Option<Seq<u64>>>, n: nat)
    requires
        n <= candidatos.len(),
    ensures
        ({
            let (k, p) = eleccion(e, base, candidatos, n);
            &&& -1 <= k < n
            &&& p >= base
            &&& k == -1 ==> p == base
            &&& k >= 0 ==> candidatos[k] is Some && p == puntuacion(e, candidatos[k].unwrap()) && p
                > base
            &&& forall|j: int|
                0 <= j < n && (#[trigger] candidatos[j]) is Some ==> puntuacion(
                    e,
                    candidatos[j].unwrap(),
                ) <= p
            &&& forall|j: int|
                0 <= j < k && (#[trigger] candidatos[j]) is Some ==> puntuacion(
                    e,
                    candidatos[j].unwrap(),
                ) < p
        }),
    decreases n,
{
    if n > 0 {
        lema_eleccion(e, base, candidatos, (n - 1) as nat);
    }
}

/// Where there is no candidate none is chosen.
pub proof fn lema_eleccion_sin_candidatos(
    e: Seq<Dato>,
    base: nat,
    candidatos: Seq<Option<Seq<u64>>>,
    n: nat,
)
    requires
        n <= candidatos.len(),
        forall|j: int| 0 <= j < n ==> (#[trigger] candidatos[j]) is None,
    ensures
        eleccion(e, base, candidatos, n) == (-1int, base),
    decreases n,
{
    if n > 0 {
        lema_eleccion_sin_candidatos(e, base, candidatos, (n - 1) as nat);
    }
}

/// The cut that prunes exactly the weights below the threshold.
pub const CORTE_INICIAL: u64 = 199_999;

/// The weights up to `corte` set to zero.
pub open spec fn truncar_spec(pesos: Seq<u64>, corte: u64) -> Seq<u64> {
    Seq::new(pesos.len(), |i: int| if pesos[i] <= corte { 0u64 } else { pesos[i] })
}

/// Sets to zero the weights up to `corte`.
pub fn truncar(pesos: &[u64], corte: u64) -> (r: Vec<u64>)
    ensures
        r@ == truncar_spec(pesos@, corte),
        a_escala(pesos@) ==> a_escala(r@),
        normalizado(pesos@) && corte < UNO ==> normalizado(r@),
        todo_cero(pesos@) ==> todo_cero(r@),
{
    let mut r: Vec<u64> = Vec::new();
    let mut i: usize = 0;
    while i < pesos.len()
        invariant
            i <= pesos@.len(),
            r@.len() == i,
            forall|j: int| 0 <= j < i ==> #[trigger] r@[j] == truncar_spec(pesos@, corte)[j],
        decreases pesos@.len() - i,
    {
        r.push(if pesos[i] <= corte { 0 } else { pesos[i] });
        i += 1;
    }
    assert(r@ =~= truncar_spec(pesos@, corte));
    proof {
        if normalizado(pesos@) && corte < UNO {
            let k = choose|k: int| 0 <= k < pesos@.len() && #[trigger] pesos@[k] == UNO;
            assert(r@[k] == UNO);
        }
    }
    r
}

/// The cuts that `truncado_optimo` tries: at each weight that is neither
/// pruned nor `UNO`, the vector cut at that weight.
pub open spec fn cortes(w: Seq<u64>) -> Seq<Option<Seq<u64>>> {
    Seq::new(
        w.len(),
        |k: int| if w[k] >= UMBRAL && w[k] != UNO { Some(truncar_spec(w, w[k])) } else { None },
    )
}

/// What `truncado_optimo` returns.
pub open spec fn truncado_optimo_spec(e: Seq<Dato>, w: Seq<u64>) -> Seq<u64> {
    let k = eleccion(e, puntuacion(e, w), cortes(w), w.len()).0;
    if k < 0 {
        truncar_spec(w, CORTE_INICIAL)
    } else {
        cortes(w)[k].unwrap()
    }
}

/// The best truncation of `w_base`: the cut is tried at every weight
/// that is neither pruned nor `UNO`, and the first cut of the highest
/// score is applied if it beats `w_base`; otherwise only the weights
/// below the threshold are set to zero.
pub fn truncado_optimo(entrenamiento: &[Dato], w_base: &[u64]) -> (w: Vec<u64>)
    requires
        muestra_valida(entrenamiento@),
        pesos_validos(entrenamiento@, w_base@),
    ensures
        w@ == truncado_optimo_spec(entrenamiento@, w_base@),
        pesos_validos(entrenamiento@, w@),
        puntuacion(entrenamiento@, w@) >= puntuacion(entrenamiento@, w_base@),
        normalizado(w_base@) ==> normalizado(w@),
        todo_cero(w_base@) ==> todo_cero(w@),
        forall|j: int|
            0 <= j < w_base@.len() && (#[trigger] cortes(w_base@)[j]) is Some ==> puntuacion(
                entrenamiento@,
                cortes(w_base@)[j].unwrap(),
            ) <= puntuacion(entrenamiento@, w@),
{
    let ghost e = entrenamiento@;
    let ghost base = puntuacion(e, w_base@);
    let ghost cs = cortes(w_base@);
    proof {
        lema_muestra_evaluable(e, w_base@);
    }
    let mut mejor_cut: u64 = CORTE_INICIAL;
    let mut mejor_pts: u64 = evaluar(entrenamiento, w_base);
    let mut k: usize = 0;
    while k < w_base.len()
        invariant
            k <= w_base@.len(),
            e == entrenamiento@,
            base == puntuacion(e, w_base@),
            cs == cortes(w_base@),
            muestra_valida(e),
            pesos_validos(e, w_base@),
            mejor_pts == eleccion(e, base, cs, k as nat).1,
            mejor_cut < UNO,
            eleccion(e, base, cs, k as nat).0 < 0 ==> mejor_cut == CORTE_INICIAL,
            eleccion(e, base, cs, k as nat).0 >= 0 ==> cs[eleccion(e, base, cs, k as nat).0]
                == Some(truncar_spec(w_base@, mejor_cut)),
        decreases w_base@.len() - k,
    {
        let x: u64 = w_base[k];
        proof {
            lema_eleccion(e, base, cs, k as nat);
        }
        if x >= UMBRAL && x != UNO {
            let candidato = truncar(w_base, x);
            proof {
                lema_muestra_evaluable(e, candidato@);
            }
            let candidato_pts = evaluar(entrenamiento, candidato.as_slice());
            if candidato_pts > mejor_pts {
                mejor_cut = x;
                mejor_pts = candidato_pts;
            }
        }
        k += 1;
    }
    proof {
        lema_eleccion(e, base, cs, w_base@.len());
        let podado = truncar_spec(w_base@, CORTE_INICIAL);
        assert(equivalentes(w_base@, podado));
        lema_puntuacion_equivalente(e, w_base@, podado);
    }
    truncar(w_base, mejor_cut)
}

/// One weight under the affine map that takes `corte` to the threshold
/// and `UNO` to `UNO`, confined to `[0, UNO]` and rounded down.
pub open spec fn transformar_uno(p: u64, corte: u64) -> u64 {
    let num = 8 * p - 10 * corte + 2 * UNO;
    let den = 10 * (UNO - corte);
    if num <= 0 {
        0
    } else if num >= den {
        UNO
    } else {
        (num * UNO / den) as u64
    }
}

/// Every weight under the affine map of `transformar_uno`.
pub open spec fn transformar_spec(pesos: Seq<u64>, corte: u64) -> Seq<u64> {
    Seq::new(pesos.len(), |i: int| transformar_uno(pesos[i], corte))
}

/// Applies the affine map that takes `corte` to the threshold and `UNO` to `UNO`.
pub fn transformar(pesos: &[u64], corte: u64) -> (r: Vec<u64>)
    requires
        corte < UNO,
        a_escala(pesos@),
    ensures
        r@ == transformar_spec(pesos@, corte),
        a_escala(r@),
        normalizado(pesos@) ==> normalizado(r@),
{
    let mut r: Vec<u64> = Vec::new();
    let mut i: usize = 0;
    while i < pesos.len()
        invariant
            i <= pesos@.len(),
            corte < UNO,
            a_escala(pesos@),
            r@.len() == i,
            forall|j: int| 0 <= j < i ==> #[trigger] r@[j] == transformar_uno(pesos@[j], corte),
            forall|j: int| 0 <= j < i ==> #[trigger] r@[j] <= UNO,
        decreases pesos@.len() - i,
    {
        let p: i128 = pesos[i] as i128;
        let num: i128 = 8 * p - 10 * (corte as i128) + 2 * (UNO as i128);
        let den: i128 = 10 * ((UNO - corte) as i128);
        let v: u64 = if num <= 0 {
            0
        } else if num >= den {
            UNO
        } else {
            proof {
                assert(0 <= num * UNO / (den as int) <= UNO) by (nonlinear_arith)
                    requires
                        0 < num < den,
                        UNO == 1_000_000,
                ;
                assert(num * UNO <= 10_000_000 * 1_000_000) by (nonlinear_arith)
                    requires
                        0 < num <= 10_000_000,
                        UNO == 1_000_000,
                ;
            }
            (num * (UNO as i128) / den) as u64
        };
        r.push(v);
        i += 1;
    }
    assert(r@ =~= transformar_spec(pesos@, corte));
    proof {
        if normalizado(pesos@) {
            let k = choose|k: int| 0 <= k < pesos@.len() && #[trigger] pesos@[k] == UNO;
            assert(r@[k] == transformar_uno(UNO, corte));
        }
    }
    r
}

/// The affine maps that `afinidad_optima` tries: at each weight that is
/// neither zero nor within a millionth of `UNO`, the map that takes
/// the next value above that weight to the threshold, so that the weight
/// itself is pruned.
pub open spec fn afinidades(w: Seq<u64>) -> Seq<Option<Seq<u64>>> {
    Seq::new(
        w.len(),
        |k: int|
            if w[k] != 0 && w[k] + 1 < UNO {
                Some(transformar_spec(w, (w[k] + 1) as u64))
            } else {
                None
            },
    )
}

/// What `afinidad_optima` returns.
pub open spec fn afinidad_optima_spec(e: Seq<Dato>, w: Seq<u64>) -> Seq<u64> {
    let k = eleccion(e, puntuacion(e, w), afinidades(w), w.len()).0;
    if k < 0 {
        transformar_spec(w, UMBRAL)
    } else {
        afinidades(w)[k].unwrap()
    }
}

/// The affine map that takes the threshold to itself changes no weight.
pub proof fn lema_transformar_identidad(w: Seq<u64>)
    requires
        a_escala(w),
    ensures
        transformar_spec(w, UMBRAL) == w,
{
    assert forall|i: int| 0 <= i < w.len() implies transformar_uno(#[trigger] w[i], UMBRAL) == w[i] by {
        let p = w[i];
        if 0 < p < UNO {
            assert((8 * p) * UNO / 8_000_000 == p) by (nonlinear_arith)
                requires
                    UNO == 1_000_000,
            ;
        }
    }
    assert(transformar_spec(w, UMBRAL) =~= w);
}

/// The best affine rescaling of `w_base`: the map is tried at every
/// weight that is neither zero nor within a millionth of `UNO`, and the
/// first map of the highest score is applied if it beats `w_base`;
/// otherwise `w_base` is returned.
pub fn afinidad_optima(entrenamiento: &[Dato], w_base: &[u64]) -> (w: Vec<u64>)
    requires
        muestra_valida(entrenamiento@),
        pesos_validos(entrenamiento@, w_base@),
    ensures
        w@ == afinidad_optima_spec(entrenamiento@, w_base@),
        pesos_validos(entrenamiento@, w@),
        puntuacion(entrenamiento@, w@) >= puntuacion(entrenamiento@, w_base@),
        normalizado(w_base@) ==> normalizado(w@),
        todo_cero(w_base@) ==> w@ == w_base@,
        forall|j: int|
            0 <= j < w_base@.len() && (#[trigger] afinidades(w_base@)[j]) is Some ==> puntuacion(
                entrenamiento@,
                afinidades(w_base@)[j].unwrap(),
            ) <= puntuacion(entrenamiento@, w@),
{
    let ghost e = entrenamiento@;
    let ghost base = puntuacion(e, w_base@);
    let ghost cs = afinidades(w_base@);
    proof {
        lema_muestra_evaluable(e, w_base@);
    }
    let mut mejor_cut: u64 = UMBRAL;
    let mut mejor_pts: u64 = evaluar(entrenamiento, w_base);
    let mut k: usize = 0;
    while k < w_base.len()
        invariant
            k <= w_base@.len(),
            e == entrenamiento@,
            base == puntuacion(e, w_base@),
            cs == afinidades(w_base@),
            muestra_valida(e),
            pesos_validos(e, w_base@),
            mejor_cut < UNO,
            mejor_pts == eleccion(e, base, cs, k as nat).1,
            eleccion(e, base, cs, k as nat).0 < 0 ==> mejor_cut == UMBRAL,
            eleccion(e, base, cs, k as nat).0 >= 0 ==> cs[eleccion(e, base, cs, k as nat).0]
                == Some(transformar_spec(w_base@, mejor_cut)),
        decreases w_base@.len() - k,
    {
        let x: u64 = w_base[k];
        proof {
            lema_eleccion(e, base, cs, k as nat);
        }
        if x != 0 && x + 1 < UNO {
            let candidato = transformar(w_base, x + 1);
            proof {
                lema_muestra_evaluable(e, candidato@);
            }
            let candidato_pts = evaluar(entrenamiento, candidato.as_slice());
            if candidato_pts > mejor_pts {
                mejor_cut = x + 1;
                mejor_pts = candidato_pts;
            }
        }
        k += 1;
    }
    proof {
        lema_eleccion(e, base, cs, w_base@.len());
        lema_transformar_identidad(w_base@);
        if todo_cero(w_base@) {
            lema_eleccion_sin_candidatos(e, base, cs, w_base@.len());
        }
    }
    transformar(w_base, mejor_cut)
}

/// The candidates of `potencia_optima` as options.
pub open spec fn propuestos(candidatos: Seq<Vec<u64>>) -> Seq<Option<Seq<u64>>> {
    Seq::new(candidatos.len(), |k: int| Some(candidatos[k]@))
}

/// What `potencia_optima` returns.
pub open spec fn potencia_optima_spec(e: Seq<Dato>, w: Seq<u64>, candidatos: Seq<Vec<u64>>) -> Seq<
    u64,
> {
    let k = eleccion(e, puntuacion(e, w), propuestos(candidatos), candidatos.len()).0;
    if k < 0 {
        w
    } else {
        candidatos[k]@
    }
}

/// The best power of `w_base`.  A real power cannot be computed with
/// integers, so the caller raises `w_base` to each exponent it wants
/// tried and hands over the resulting vectors: for every weight `x` that
/// is neither zero nor `UNO`, the exponent that takes `x` just below the
/// threshold.  The first candidate of the highest score is returned if
/// it beats `w_base`; otherwise `w_base` is.
pub fn potencia_optima(entrenamiento: &[Dato], w_base: &[u64], candidatos: &[Vec<u64>]) -> (w: Vec<
    u64,
>)
    requires
        muestra_valida(entrenamiento@),
        pesos_validos(entrenamiento@, w_base@),
        forall|k: int|
            0 <= k < candidatos@.len() ==> pesos_validos(entrenamiento@, #[trigger] candidatos@[k]@),
    ensures
        w@ == potencia_optima_spec(entrenamiento@, w_base@, candidatos@),
        pesos_validos(entrenamiento@, w@),
        puntuacion(entrenamiento@, w@) >= puntuacion(entrenamiento@, w_base@),
        forall|j: int|
            0 <= j < candidatos@.len() ==> puntuacion(entrenamiento@, #[trigger] candidatos@[j]@)
                <= puntuacion(entrenamiento@, w@),
{
    let ghost e = entrenamiento@;
    let ghost base = puntuacion(e, w_base@);
    let ghost cs = propuestos(candidatos@);
    proof {
        lema_muestra_evaluable(e, w_base@);
    }
    let mut mejor: Option<usize> = None;
    let mut mejor_pts: u64 = evaluar(entrenamiento, w_base);
    let mut k: usize = 0;
    while k < candidatos.len()
        invariant
            k <= candidatos@.len(),
            e == entrenamiento@,
            base == puntuacion(e, w_base@),
            cs == propuestos(candidatos@),
            muestra_valida(e),
            forall|j: int| 0 <= j < candidatos@.len() ==> pesos_validos(e, #[trigger] candidatos@[j]@),
            mejor_pts == eleccion(e, base, cs, k as nat).1,
            mejor is None ==> eleccion(e, base, cs, k as nat).0 == -1,
            mejor is Some ==> eleccion(e, base, cs, k as nat).0 == mejor.unwrap(),
        decreases candidatos@.len() - k,
    {
        proof {
            lema_muestra_evaluable(e, candidatos@[k as int]@);
            lema_eleccion(e, base, cs, k as nat);
        }
        let candidato_pts = evaluar(entrenamiento, candidatos[k].as_slice());
        if candidato_pts > mejor_pts {
            mejor = Some(k);
            mejor_pts = candidato_pts;
        }
        k += 1;
    }
    proof {
        lema_eleccion(e, base, cs, candidatos@.len());
        assert forall|j: int| 0 <= j < candidatos@.len() implies puntuacion(
            e,
            #[trigger] candidatos@[j]@,
        ) <= mejor_pts by {
            assert(cs[j] is Some);
        }
    }
    match mejor {
        Some(m) => vstd::slice::slice_to_vec(candidatos[m].as_slice()),
        None => vstd::slice::slice_to_vec(w_base),
    }
}


/// `w` is what a local search from a random start may return: the
/// start is a weight vector for the sample that is normalized or all
/// zeros.
pub open spec fn es_resultado_local_al_azar(
    e: Seq<Dato>,
    vecino: Vecino,
    ordenada: bool,
    max_evaluaciones: int,
    max_ciclos: int,
    w: Seq<u64>,
) -> bool {
    exists|w_base: Seq<u64>|
        {
            &&& pesos_validos(e, w_base)
            &&& normalizado(w_base) || todo_cero(w_base)
            &&& #[trigger] es_resultado_local(
                e,
                w_base,
                vecino,
                ordenada,
                max_evaluaciones,
                max_ciclos,
                w,
            )
        }
}

/// Evaluations of the objective function after which a local search stops.
pub const MAX_EVALUACIONES: usize = 15000;

/// Passes over all attributes without an improvement after which a local search stops.
pub const MAX_CICLOS: usize = 20;

/// A uniform random weight vector for the sample, normalized: the
/// starting point of the searches.
pub fn vector_au(entrenamiento: &[Dato], rng: &mut Isaac64Rng) -> (w: Vec<u64>)
    requires
        muestra_valida(entrenamiento@),
    ensures
        pesos_validos(entrenamiento@, w@),
        normalizado(w@) || todo_cero(w@),
{
    vector_aleatorio_uniforme(entrenamiento[0].num_atributos(), rng)
}

/// The ways to produce a first solution.
#[derive(Clone, Copy, Debug, PartialEq, Eq, Structural)]
pub enum Inicial {
    /// A uniform random vector, `vector_au`.
    VectorAu,
    /// The RELIEF weights, `relief`.
    Relief,
}

/// Produces a first solution.
pub fn generar_inicial(inicial: Inicial, entrenamiento: &[Dato], rng: &mut Isaac64Rng) -> (w: Vec<
    u64,
>)
    requires
        muestra_valida(entrenamiento@),
        inicial == Inicial::Relief ==> relief_aplicable(entrenamiento@),
    ensures
        pesos_validos(entrenamiento@, w@),
        normalizado(w@) || todo_cero(w@),
        inicial == Inicial::Relief ==> w@ == relief_spec(entrenamiento@),
{
    match inicial {
        Inicial::VectorAu => vector_au(entrenamiento, rng),
        Inicial::Relief => relief(entrenamiento),
    }
}

/// The ways to improve a given solution.
#[derive(Clone, Copy, Debug, PartialEq, Eq, Structural)]
pub enum Refinamiento {
    /// A local search with the given operator and stopping rules, the
    /// attributes visited in the order of the records or, if `ordenada`,
    /// by descending score of each attribute alone.
    BusquedaLocal { vecino: Vecino, ordenada: bool, max_evaluaciones: usize, max_ciclos: usize },
    /// `truncado_optimo`.
    TruncadoOptimo,
    /// `afinidad_optima`.
    AfinidadOptima,
}

/// `w` is what the refinement may return from `w_base`.
pub open spec fn es_refinado(
    refinamiento: Refinamiento,
    e: Seq<Dato>,
    w_base: Seq<u64>,
    w: Seq<u64>,
) -> bool {
    match refinamiento {
        Refinamiento::BusquedaLocal { vecino, ordenada, max_evaluaciones, max_ciclos } => {
            es_resultado_local(
                e,
                w_base,
                vecino,
                ordenada,
                max_evaluaciones as int,
                max_ciclos as int,
                w,
            )
        },
        Refinamiento::TruncadoOptimo => w == truncado_optimo_spec(e, w_base),
        Refinamiento::AfinidadOptima => w == afinidad_optima_spec(e, w_base),
    }
}

/// Improves `w_base`: the result never scores below it.
pub fn refinar<R: Ruido>(
    refinamiento: Refinamiento,
    entrenamiento: &[Dato],
    w_base: &[u64],
    rng: &mut Isaac64Rng,
    ruido: &R,
) -> (w: Vec<u64>)
    requires
        muestra_valida(entrenamiento@),
        pesos_validos(entrenamiento@, w_base@),
    ensures
        pesos_validos(entrenamiento@, w@),
        puntuacion(entrenamiento@, w@) >= puntuacion(entrenamiento@, w_base@),
        refinamiento == Refinamiento::TruncadoOptimo ==> w@ == truncado_optimo_spec(
            entrenamiento@,
            w_base@,
        ),
        refinamiento == Refinamiento::AfinidadOptima ==> w@ == afinidad_optima_spec(
            entrenamiento@,
            w_base@,
        ),
        refinamiento == Refinamiento::TruncadoOptimo || refinamiento
            == Refinamiento::AfinidadOptima ==> {
            &&& normalizado(w_base@) ==> normalizado(w@)
            &&& todo_cero(w_base@) ==> todo_cero(w@)
        },
        es_refinado(refinamiento, entrenamiento@, w_base@, w@),
        w@ == w_base@ || puntuacion(entrenamiento@, w@) > puntuacion(entrenamiento@, w_base@)
            || refinamiento == Refinamiento::TruncadoOptimo || refinamiento
            == Refinamiento::AfinidadOptima,
        normalizado(w_base@) || todo_cero(w_base@) ==> normal_o_sobre_cero(entrenamiento@, w@),
{
    match refinamiento {
        Refinamiento::BusquedaLocal { vecino, ordenada, max_evaluaciones, max_ciclos } => {
            if ordenada {
                busqueda_local_ordenada_desde(
                    entrenamiento,
                    w_base,
                    vecino,
                    max_evaluaciones,
                    max_ciclos,
                    rng,
                    ruido,
                )
            } else {
                busqueda_local_generica_desde(
                    entrenamiento,
                    w_base,
                    vecino,
                    max_evaluaciones,
                    max_ciclos,
                    rng,
                    ruido,
                )
            }
        },
        Refinamiento::TruncadoOptimo => truncado_optimo(entrenamiento, w_base),
        Refinamiento::AfinidadOptima => afinidad_optima(entrenamiento, w_base),
    }
}

/// Runs one algorithm to get a solution and another to improve it.
pub fn combinar<R: Ruido>(
    entrenamiento: &[Dato],
    algoritmo_1: Inicial,
    algoritmo_bl: Refinamiento,
    rng: &mut Isaac64Rng,
    ruido: &R,
) -> (w: Vec<u64>)
    requires
        muestra_valida(entrenamiento@),
        algoritmo_1 == Inicial::Relief ==> relief_aplicable(entrenamiento@),
    ensures
        pesos_validos(entrenamiento@, w@),
        algoritmo_1 == Inicial::Relief ==> puntuacion(entrenamiento@, w@) >= puntuacion(
            entrenamiento@,
            relief_spec(entrenamiento@),
        ),
        algoritmo_1 == Inicial::Relief && algoritmo_bl == Refinamiento::TruncadoOptimo ==> w@
            == truncado_optimo_spec(entrenamiento@, relief_spec(entrenamiento@)),
        algoritmo_1 == Inicial::Relief && algoritmo_bl == Refinamiento::AfinidadOptima ==> w@
            == afinidad_optima_spec(entrenamiento@, relief_spec(entrenamiento@)),
{
    let w = generar_inicial(algoritmo_1, entrenamiento, rng);
    refinar(algoritmo_bl, entrenamiento, w.as_slice(), rng, ruido)
}

/// Local search from `w_base` with the default operator.
pub fn busqueda_local_desde<R: Ruido>(
    entrenamiento: &[Dato],
    w_base: &[u64],
    rng: &mut Isaac64Rng,
    ruido: &R,
) -> (w: Vec<u64>)
    requires
        muestra_valida(entrenamiento@),
        pesos_validos(entrenamiento@, w_base@),
    ensures
        pesos_validos(entrenamiento@, w@),
        puntuacion(entrenamiento@, w@) >= puntuacion(entrenamiento@, w_base@),
        w@ == w_base@ || puntuacion(entrenamiento@, w@) > puntuacion(entrenamiento@, w_base@),
        es_resultado_local(
            entrenamiento@,
            w_base@,
            Vecino::Bl,
            false,
            MAX_EVALUACIONES as int,
            MAX_CICLOS as int,
            w@,
        ),
        normalizado(w_base@) || todo_cero(w_base@) ==> normal_o_sobre_cero(entrenamiento@, w@),
{
    busqueda_local_generica_desde(
        entrenamiento,
        w_base,
        Vecino::Bl,
        MAX_EVALUACIONES,
        MAX_CICLOS,
        rng,
        ruido,
    )
}

/// Local search from a random vector with the default operator.
pub fn busqueda_local<R: Ruido>(entrenamiento: &[Dato], rng: &mut Isaac64Rng, ruido: &R) -> (w: Vec<
    u64,
>)
    requires
        muestra_valida(entrenamiento@),
    ensures
        pesos_validos(entrenamiento@, w@),
        es_resultado_local_al_azar(
            entrenamiento@,
            Vecino::Bl,
            false,
            MAX_EVALUACIONES as int,
            MAX_CICLOS as int,
            w@,
        ),
        normal_o_sobre_cero(entrenamiento@, w@),
{
    let w0 = vector_au(entrenamiento, rng);
    let w = busqueda_local_desde(entrenamiento, w0.as_slice(), rng, ruido);
    assert(es_resultado_local(
        entrenamiento@,
        w0@,
        Vecino::Bl,
        false,
        MAX_EVALUACIONES as int,
        MAX_CICLOS as int,
        w@,
    ));
    w
}

/// RELIEF followed by the best truncation of its weights.
pub fn relief_truncado(entrenamiento: &[Dato]) -> (w: Vec<u64>)
    requires
        relief_aplicable(entrenamiento@),
    ensures
        w@ == truncado_optimo_spec(entrenamiento@, relief_spec(entrenamiento@)),
        pesos_validos(entrenamiento@, w@),
        puntuacion(entrenamiento@, w@) >= puntuacion(entrenamiento@, relief_spec(entrenamiento@)),
        normalizado(w@) || todo_cero(w@),
{
    let w = relief(entrenamiento);
    truncado_optimo(entrenamiento, w.as_slice())
}

/// RELIEF followed by the best affine rescaling of its weights.
pub fn relief_afinidad(entrenamiento: &[Dato]) -> (w: Vec<u64>)
    requires
        relief_aplicable(entrenamiento@),
    ensures
        w@ == afinidad_optima_spec(entrenamiento@, relief_spec(entrenamiento@)),
        pesos_validos(entrenamiento@, w@),
        puntuacion(entrenamiento@, w@) >= puntuacion(entrenamiento@, relief_spec(entrenamiento@)),
        normalizado(w@) || todo_cero(w@),
{
    let w = relief(entrenamiento);
    afinidad_optima(entrenamiento, w.as_slice())
}

/// RELIEF followed by the best power of its weights, chosen among the
/// candidates that the caller derives from the RELIEF weights as
/// `potencia_optima` describes.
pub fn relief_potencia(entrenamiento: &[Dato], candidatos: &[Vec<u64>]) -> (w: Vec<u64>)
    requires
        relief_aplicable(entrenamiento@),
        forall|k: int|
            0 <= k < candidatos@.len() ==> pesos_validos(entrenamiento@, #[trigger] candidatos@[k]@),
    ensures
        w@ == potencia_optima_spec(entrenamiento@, relief_spec(entrenamiento@), candidatos@),
        pesos_validos(entrenamiento@, w@),
        puntuacion(entrenamiento@, w@) >= puntuacion(entrenamiento@, relief_spec(entrenamiento@)),
{
    let w = relief(entrenamiento);
    potencia_optima(entrenamiento, w.as_slice(), candidatos)
}

/// Local search from `w_base` with the alternative operator.
pub fn busqueda_local_mut2_desde<R: Ruido>(
    entrenamiento: &[Dato],
    w_base: &[u64],
    rng: &mut Isaac64Rng,
    ruido: &R,
) -> (w: Vec<u64>)
    requires
        muestra_valida(entrenamiento@),
        pesos_validos(entrenamiento@, w_base@),
    ensures
        pesos_validos(entrenamiento@, w@),
        puntuacion(entrenamiento@, w@) >= puntuacion(entrenamiento@, w_base@),
        w@ == w_base@ || puntuacion(entrenamiento@, w@) > puntuacion(entrenamiento@, w_base@),
        es_resultado_local(
            entrenamiento@,
            w_base@,
            Vecino::BlMut2,
            false,
            MAX_EVALUACIONES as int,
            MAX_CICLOS as int,
            w@,
        ),
        normalizado(w_base@) || todo_cero(w_base@) ==> normal_o_sobre_cero(entrenamiento@, w@),
{
    busqueda_local_generica_desde(
        entrenamiento,
        w_base,
        Vecino::BlMut2,
        MAX_EVALUACIONES,
        MAX_CICLOS,
        rng,
        ruido,
    )
}

/// Local search from a random vector with the alternative operator.
pub fn busqueda_local_mut2<R: Ruido>(entrenamiento: &[Dato], rng: &mut Isaac64Rng, ruido: &R) -> (w:
    Vec<u64>)
    requires
        muestra_valida(entrenamiento@),
    ensures
        pesos_validos(entrenamiento@, w@),
        es_resultado_local_al_azar(
            entrenamiento@,
            Vecino::BlMut2,
            false,
            MAX_EVALUACIONES as int,
            MAX_CICLOS as int,
            w@,
        ),
        normal_o_sobre_cero(entrenamiento@, w@),
{
    let w0 = vector_au(entrenamiento, rng);
    let w = busqueda_local_mut2_desde(entrenamiento, w0.as_slice(), rng, ruido);
    assert(es_resultado_local(
        entrenamiento@,
        w0@,
        Vecino::BlMut2,
        false,
        MAX_EVALUACIONES as int,
        MAX_CICLOS as int,
        w@,
    ));
    w
}

/// Ordered local search from `w_base` with the default operator.
pub fn busqueda_local_orden_desde<R: Ruido>(
    entrenamiento: &[Dato],
    w_base: &[u64],
    rng: &mut Isaac64Rng,
    ruido: &R,
) -> (w: Vec<u64>)
    requires
        muestra_valida(entrenamiento@),
        pesos_validos(entrenamiento@, w_base@),
    ensures
        pesos_validos(entrenamiento@, w@),
        puntuacion(entrenamiento@, w@) >= puntuacion(entrenamiento@, w_base@),
        w@ == w_base@ || puntuacion(entrenamiento@, w@) > puntuacion(entrenamiento@, w_base@),
        es_resultado_local(
            entrenamiento@,
            w_base@,
            Vecino::Bl,
            true,
            MAX_EVALUACIONES as int,
            MAX_CICLOS as int,
            w@,
        ),
        normalizado(w_base@) || todo_cero(w_base@) ==> normal_o_sobre_cero(entrenamiento@, w@),
{
    busqueda_local_ordenada_desde(
        entrenamiento,
        w_base,
        Vecino::Bl,
        MAX_EVALUACIONES,
        MAX_CICLOS,
        rng,
        ruido,
    )
}

/// Ordered local search from a random vector with the default operator.
pub fn busqueda_local_orden<R: Ruido>(entrenamiento: &[Dato], rng: &mut Isaac64Rng, ruido: &R) -> (w:
    Vec<u64>)
    requires
        muestra_valida(entrenamiento@),
    ensures
        pesos_validos(entrenamiento@, w@),
        es_resultado_local_al_azar(
            entrenamiento@,
            Vecino::Bl,
            true,
            MAX_EVALUACIONES as int,
            MAX_CICLOS as int,
            w@,
        ),
        normal_o_sobre_cero(entrenamiento@, w@),
{
    let w0 = vector_au(entrenamiento, rng);
    let w = busqueda_local_orden_desde(entrenamiento, w0.as_slice(), rng, ruido);
    assert(es_resultado_local(
        entrenamiento@,
        w0@,
        Vecino::Bl,
        true,
        MAX_EVALUACIONES as int,
        MAX_CICLOS as int,
        w@,
    ));
    w
}

/// Ordered local search from `w_base` with the alternative operator.
pub fn busqueda_local_orden_mut2_desde<R: Ruido>(
    entrenamiento: &[Dato],
    w_base: &[u64],
    rng: &mut Isaac64Rng,
    ruido: &R,
) -> (w: Vec<u64>)
    requires
        muestra_valida(entrenamiento@),
        pesos_validos(entrenamiento@, w_base@),
    ensures
        pesos_validos(entrenamiento@, w@),
        puntuacion(entrenamiento@, w@) >= puntuacion(entrenamiento@, w_base@),
        w@ == w_base@ || puntuacion(entrenamiento@, w@) > puntuacion(entrenamiento@, w_base@),
        es_resultado_local(
            entrenamiento@,
            w_base@,
            Vecino::BlMut2,
            true,
            MAX_EVALUACIONES as int,
            MAX_CICLOS as int,
            w@,
        ),
        normalizado(w_base@) || todo_cero(w_base@) ==> normal_o_sobre_cero(entrenamiento@, w@),
{
    busqueda_local_ordenada_desde(
        entrenamiento,
        w_base,
        Vecino::BlMut2,
        MAX_EVALUACIONES,
        MAX_CICLOS,
        rng,
        ruido,
    )
}

/// Ordered local search from a random vector with the alternative operator.
pub fn busqueda_local_orden_mut2<R: Ruido>(
    entrenamiento: &[Dato],
    rng: &mut Isaac64Rng,
    ruido: &R,
) -> (w: Vec<u64>)
    requires
        muestra_valida(entrenamiento@),
    ensures
        pesos_validos(entrenamiento@, w@),
        es_resultado_local_al_azar(
            entrenamiento@,
            Vecino::BlMut2,
            true,
            MAX_EVALUACIONES as int,
            MAX_CICLOS as int,
            w@,
        ),
        normal_o_sobre_cero(entrenamiento@, w@),
{
    let w0 = vector_au(entrenamiento, rng);
    let w = busqueda_local_orden_mut2_desde(entrenamiento, w0.as_slice(), rng, ruido);
    assert(es_resultado_local(
        entrenamiento@,
        w0@,
        Vecino::BlMut2,
        true,
        MAX_EVALUACIONES as int,
        MAX_CICLOS as int,
        w@,
    ));
    w
}

} // verus!
