//! The algorithms by name, so that a caller can pick one and run it.

use vstd::prelude::*;
use rand::Isaac64Rng;
use crate::aleatorio::Ruido;
use crate::knn::{Dato, hay_amigo, hay_enemigo};
use crate::fijo::{UNO, normalizado, todo_cero};
use crate::evaluacion_pesos::{
    muestra_valida, pesos_validos, puntuacion, num_atributos, es_muestra_valida,
};
use crate::funciones_practica1::{
    uno_nn, relief, busqueda_local, relief_truncado, relief_afinidad, busqueda_local_mut2,
    busqueda_local_orden, busqueda_local_orden_mut2, relief_aplicable, es_relief_aplicable,
    relief_spec, truncado_optimo_spec, afinidad_optima_spec, unos, acompanado, Vecino, Inicial,
    Refinamiento, es_resultado_local_al_azar, normal_o_sobre_cero,
};
use crate::funciones_practica2::{
    agg_blx, agg_ca, age_blx, age_ca, am_a, am_b, am_c, agg_blx_mut2, age_blx_mut2, age_ca_alt,
    am_afinidad_01, TAMANO_GENERACIONAL, TAMANO_ESTACIONARIO, GENERACIONES_MEMETICO,
    GENERACIONES_SIN_MEMETICO, Cruce, OperadorMemetico, es_resultado_generacional,
    es_resultado_estacionario,
};
use crate::funciones_practica3::{
    es, ils, de_rand_1, de_ctb_1, es_mut2, es_prop, es_prop_mut2, ils_mut2, ils_afinidad,
    ils_afinidad_relief, Enfriamiento, OperadorDe, TAMANO_DE, MAX_EVALUACIONES_BL, MAX_CICLOS_BL,
    es_resultado_enfriado_al_azar, es_busqueda_iterada_al_azar, es_resultado_diferencial,
};

verus! {

/// The algorithms that learn a weight vector from a training sample.
#[derive(Clone, Copy, Debug, PartialEq, Eq, Structural)]
pub enum Algoritmo {
    /// `uno_nn`.
    UnoNn,
    /// `relief`.
    Relief,
    /// `busqueda_local`.
    BusquedaLocal,
    /// `agg_blx`.
    AggBlx,
    /// `agg_ca`.
    AggCa,
    /// `age_blx`.
    AgeBlx,
    /// `age_ca`.
    AgeCa,
    /// `am_a`.
    AmA,
    /// `am_b`.
    AmB,
    /// `am_c`.
    AmC,
    /// `relief_truncado`.
    ReliefTruncado,
    /// `relief_afinidad`.
    ReliefAfinidad,
    /// `busqueda_local_mut2`.
    BusquedaLocalMut2,
    /// `busqueda_local_orden`.
    BusquedaLocalOrden,
    /// `busqueda_local_orden_mut2`.
    BusquedaLocalOrdenMut2,
    /// `agg_blx_mut2`.
    AggBlxMut2,
    /// `age_blx_mut2`.
    AgeBlxMut2,
    /// `age_ca_alt`.
    AgeCaAlt,
    /// `am_afinidad_01`.
    AmAfinidad01,
    /// `es`.
    Es,
    /// `ils`.
    Ils,
    /// `de_rand_1`.
    DeRand1,
    /// `de_ctb_1`.
    DeCtb1,
    /// `es_mut2`.
    EsMut2,
    /// `es_prop`.
    EsProp,
    /// `es_prop_mut2`.
    EsPropMut2,
    /// `ils_mut2`.
    IlsMut2,
    /// `ils_afinidad`.
    IlsAfinidad,
    /// `ils_afinidad_relief`.
    IlsAfinidadRelief,
}

/// Whether the algorithm starts from the RELIEF weights.
pub open spec fn requiere_relief(algoritmo: Algoritmo) -> bool {
    algoritmo == Algoritmo::Relief || algoritmo == Algoritmo::ReliefTruncado || algoritmo
        == Algoritmo::ReliefAfinidad || algoritmo == Algoritmo::IlsAfinidadRelief
}

/// Whether every weight vector that the algorithm returns has its
/// largest component at one, or is all zeros.  The others may return a
/// vector that is not normalized: differential evolution never
/// normalizes, and a search that meets the vector of zeros goes on from
/// it with neighbours that are not normalized.
pub open spec fn siempre_normaliza(algoritmo: Algoritmo) -> bool {
    algoritmo == Algoritmo::UnoNn || algoritmo == Algoritmo::Relief || algoritmo
        == Algoritmo::ReliefTruncado || algoritmo == Algoritmo::ReliefAfinidad || algoritmo
        == Algoritmo::IlsAfinidad || algoritmo == Algoritmo::IlsAfinidadRelief
}

/// Decides `requiere_relief`.
pub fn usa_relief(algoritmo: Algoritmo) -> (b: bool)
    ensures
        b == requiere_relief(algoritmo),
{
    match algoritmo {
        Algoritmo::Relief => true,
        Algoritmo::ReliefTruncado => true,
        Algoritmo::ReliefAfinidad => true,
        Algoritmo::IlsAfinidadRelief => true,
        _ => false,
    }
}

/// The algorithm can run on the sample: the sample is valid, its genes
/// can be counted, and every record has a friend and an enemy and only
/// real attributes if the algorithm starts from the RELIEF weights.
pub open spec fn aplicable(algoritmo: Algoritmo, e: Seq<Dato>) -> bool {
    &&& muestra_valida(e)
    &&& TAMANO_GENERACIONAL * num_atributos(e) <= usize::MAX
    &&& requiere_relief(algoritmo) ==> relief_aplicable(e)
}

/// Whether an algorithm can run on a sample depends on what its
/// records hold alone: it can run on a copy if it can run on the sample.
pub proof fn lema_aplicable_a_copias(algoritmo: Algoritmo, a: Seq<Dato>, b: Seq<Dato>)
    requires
        a.len() == b.len(),
        forall|k: int| 0 <= k < a.len() ==> (#[trigger] a[k])@ == b[k]@,
    ensures
        aplicable(algoritmo, a) == aplicable(algoritmo, b),
{
    if a.len() > 0 {
        assert(a[0]@ == b[0]@);
        assert(muestra_valida(a) == muestra_valida(b)) by {
            if muestra_valida(a) {
                assert forall|j: int| 0 <= j < b.len() implies (#[trigger] b[j]@).bien_formado()
                    && b[j]@.misma_forma(b[0]@) by {
                    assert(a[j]@ == b[j]@);
                }
            }
            if muestra_valida(b) {
                assert forall|j: int| 0 <= j < a.len() implies (#[trigger] a[j]@).bien_formado()
                    && a[j]@.misma_forma(a[0]@) by {
                    assert(a[j]@ == b[j]@);
                }
            }
        }
        assert forall|i: int| 0 <= i < a.len() implies acompanado(a, i) == acompanado(b, i) by {
            assert(a[i]@ == b[i]@);
            if hay_amigo(a, i) {
                let j = choose|j: int|
                    0 <= j < a.len() && j != i && (#[trigger] a[j])@.categoria == a[i]@.categoria;
                assert(a[j]@ == b[j]@);
                assert(b[j]@.categoria == b[i]@.categoria);
            }
            if hay_amigo(b, i) {
                let j = choose|j: int|
                    0 <= j < b.len() && j != i && (#[trigger] b[j])@.categoria == b[i]@.categoria;
                assert(a[j]@ == b[j]@);
                assert(a[j]@.categoria == a[i]@.categoria);
            }
            if hay_enemigo(a, a[i]@) {
                let j = choose|j: int|
                    0 <= j < a.len() && (#[trigger] a[j])@.categoria != a[i]@.categoria;
                assert(a[j]@ == b[j]@);
                assert(b[j]@.categoria != b[i]@.categoria);
            }
            if hay_enemigo(b, b[i]@) {
                let j = choose|j: int|
                    0 <= j < b.len() && (#[trigger] b[j])@.categoria != b[i]@.categoria;
                assert(a[j]@ == b[j]@);
                assert(a[j]@.categoria != a[i]@.categoria);
            }
        }
        if relief_aplicable(a) {
            assert forall|i: int| 0 <= i < b.len() implies #[trigger] acompanado(b, i) by {
                assert(acompanado(a, i));
            }
        }
        if relief_aplicable(b) {
            assert forall|i: int| 0 <= i < a.len() implies #[trigger] acompanado(a, i) by {
                assert(acompanado(b, i));
            }
        }
    }
}

/// `w` may come out of a local search with the standard stopping rules.
pub open spec fn local_posible(e: Seq<Dato>, vecino: Vecino, ordenada: bool, w: Seq<u64>) -> bool {
    es_resultado_local_al_azar(
        e,
        vecino,
        ordenada,
        crate::funciones_practica1::MAX_EVALUACIONES as int,
        crate::funciones_practica1::MAX_CICLOS as int,
        w,
    )
}

/// `w` may come out of a run with generations, of the standard size
/// and budget, with the memetic operator `op`.
pub open spec fn generacional_posible(
    e: Seq<Dato>,
    cruce: Cruce,
    vecino: Vecino,
    op: (usize, OperadorMemetico),
    w: Seq<u64>,
) -> bool {
    es_resultado_generacional(
        e,
        Inicial::VectorAu,
        cruce,
        vecino,
        op,
        TAMANO_GENERACIONAL as nat,
        crate::funciones_practica2::MAX_EVALUACIONES as nat,
        w,
    )
}

/// `w` may come out of a steady-state run of the standard size and budget.
pub open spec fn estacionario_posible(e: Seq<Dato>, cruce: Cruce, vecino: Vecino, w: Seq<u64>) -> bool {
    es_resultado_estacionario(
        e,
        Inicial::VectorAu,
        cruce,
        vecino,
        TAMANO_ESTACIONARIO as nat,
        crate::funciones_practica2::MAX_EVALUACIONES as nat,
        w,
    )
}

/// The local search of the iterated local search with the given operator.
pub open spec fn refinamiento_iterado(vecino: Vecino) -> Refinamiento {
    Refinamiento::BusquedaLocal {
        vecino,
        ordenada: false,
        max_evaluaciones: MAX_EVALUACIONES_BL,
        max_ciclos: MAX_CICLOS_BL,
    }
}

/// `w` is a weight vector that the algorithm may return on the sample
/// `e`: for the algorithms that draw nothing the one they compute, for
/// the others what their run gives for some draws.
pub open spec fn resultado_posible(algoritmo: Algoritmo, e: Seq<Dato>, w: Seq<u64>) -> bool {
    let sin_operador = (GENERACIONES_SIN_MEMETICO, OperadorMemetico::Nada);
    match algoritmo {
        Algoritmo::UnoNn => w == unos(num_atributos(e)),
        Algoritmo::Relief => w == relief_spec(e),
        Algoritmo::ReliefTruncado => w == truncado_optimo_spec(e, relief_spec(e)),
        Algoritmo::ReliefAfinidad => w == afinidad_optima_spec(e, relief_spec(e)),
        Algoritmo::BusquedaLocal => local_posible(e, Vecino::Bl, false, w),
        Algoritmo::BusquedaLocalMut2 => local_posible(e, Vecino::BlMut2, false, w),
        Algoritmo::BusquedaLocalOrden => local_posible(e, Vecino::Bl, true, w),
        Algoritmo::BusquedaLocalOrdenMut2 => local_posible(e, Vecino::BlMut2, true, w),
        Algoritmo::AggBlx => generacional_posible(e, Cruce::Blx03, Vecino::Bl, sin_operador, w),
        Algoritmo::AggCa => generacional_posible(e, Cruce::Aritmetico, Vecino::Bl, sin_operador, w),
        Algoritmo::AggBlxMut2 => generacional_posible(
            e,
            Cruce::Blx03,
            Vecino::BlMut2,
            sin_operador,
            w,
        ),
        Algoritmo::AmA => generacional_posible(
            e,
            Cruce::Blx03,
            Vecino::Bl,
            (GENERACIONES_MEMETICO, OperadorMemetico::BlTodos),
            w,
        ),
        Algoritmo::AmB => generacional_posible(
            e,
            Cruce::Blx03,
            Vecino::Bl,
            (GENERACIONES_MEMETICO, OperadorMemetico::Bl01),
            w,
        ),
        Algoritmo::AmC => generacional_posible(
            e,
            Cruce::Blx03,
            Vecino::Bl,
            (GENERACIONES_MEMETICO, OperadorMemetico::Bl01Mej),
            w,
        ),
        Algoritmo::AmAfinidad01 => generacional_posible(
            e,
            Cruce::Blx03,
            Vecino::Bl,
            (GENERACIONES_MEMETICO, OperadorMemetico::Af01),
            w,
        ),
        Algoritmo::AgeBlx => estacionario_posible(e, Cruce::Blx03, Vecino::Bl, w),
        Algoritmo::AgeCa => estacionario_posible(e, Cruce::Aritmetico, Vecino::Bl, w),
        Algoritmo::AgeCaAlt => estacionario_posible(e, Cruce::AritmeticoAlt, Vecino::Bl, w),
        Algoritmo::AgeBlxMut2 => estacionario_posible(e, Cruce::Blx03, Vecino::BlMut2, w),
        Algoritmo::Es => es_resultado_enfriado_al_azar(
            e,
            Inicial::VectorAu,
            Vecino::Bl,
            Enfriamiento::Cauchy,
            w,
        ),
        Algoritmo::EsMut2 => es_resultado_enfriado_al_azar(
            e,
            Inicial::VectorAu,
            Vecino::BlMut2,
            Enfriamiento::Cauchy,
            w,
        ),
        Algoritmo::EsProp => es_resultado_enfriado_al_azar(
            e,
            Inicial::VectorAu,
            Vecino::Bl,
            Enfriamiento::Proporcional,
            w,
        ),
        Algoritmo::EsPropMut2 => es_resultado_enfriado_al_azar(
            e,
            Inicial::VectorAu,
            Vecino::BlMut2,
            Enfriamiento::Proporcional,
            w,
        ),
        Algoritmo::Ils => es_busqueda_iterada_al_azar(
            refinamiento_iterado(Vecino::Bl),
            e,
            Inicial::VectorAu,
            w,
        ),
        Algoritmo::IlsMut2 => es_busqueda_iterada_al_azar(
            refinamiento_iterado(Vecino::BlMut2),
            e,
            Inicial::VectorAu,
            w,
        ),
        Algoritmo::IlsAfinidad => es_busqueda_iterada_al_azar(
            Refinamiento::AfinidadOptima,
            e,
            Inicial::VectorAu,
            w,
        ),
        Algoritmo::IlsAfinidadRelief => es_busqueda_iterada_al_azar(
            Refinamiento::AfinidadOptima,
            e,
            Inicial::Relief,
            w,
        ),
        Algoritmo::DeRand1 => es_resultado_diferencial(
            OperadorDe::Rand1,
            e,
            Inicial::VectorAu,
            TAMANO_DE as nat,
            crate::funciones_practica3::MAX_EVALUACIONES as nat,
            w,
        ),
        Algoritmo::DeCtb1 => es_resultado_diferencial(
            OperadorDe::Ctb1,
            e,
            Inicial::VectorAu,
            TAMANO_DE as nat,
            crate::funciones_practica3::MAX_EVALUACIONES as nat,
            w,
        ),
    }
}

/// Whether the algorithm is a search along one trajectory from a
/// first solution that is normalized or all zeros: a local search, a
/// simulated annealing or an iterated local search.
pub open spec fn busca_por_trayectoria(algoritmo: Algoritmo) -> bool {
    algoritmo == Algoritmo::BusquedaLocal || algoritmo == Algoritmo::BusquedaLocalMut2
        || algoritmo == Algoritmo::BusquedaLocalOrden || algoritmo
        == Algoritmo::BusquedaLocalOrdenMut2 || algoritmo == Algoritmo::Es || algoritmo
        == Algoritmo::EsMut2 || algoritmo == Algoritmo::EsProp || algoritmo
        == Algoritmo::EsPropMut2 || algoritmo == Algoritmo::Ils || algoritmo == Algoritmo::IlsMut2
        || algoritmo == Algoritmo::IlsAfinidad || algoritmo == Algoritmo::IlsAfinidadRelief
}

/// Decides `aplicable`.
pub fn es_aplicable(algoritmo: Algoritmo, entrenamiento: &[Dato]) -> (b: bool)
    ensures
        b == aplicable(algoritmo, entrenamiento@),
{
    if !es_muestra_valida(entrenamiento) {
        return false;
    }
    if entrenamiento[0].num_atributos() > usize::MAX / TAMANO_GENERACIONAL {
        return false;
    }
    if usa_relief(algoritmo) {
        es_relief_aplicable(entrenamiento)
    } else {
        true
    }
}

/// Runs an algorithm on a training sample.
pub fn ejecutar<R: Ruido>(
    algoritmo: Algoritmo,
    entrenamiento: &[Dato],
    rng: &mut Isaac64Rng,
    ruido: &R,
) -> (w: Vec<u64>)
    requires
        aplicable(algoritmo, entrenamiento@),
    ensures
        pesos_validos(entrenamiento@, w@),
        algoritmo == Algoritmo::UnoNn ==> w@ == unos(num_atributos(entrenamiento@)),
        algoritmo == Algoritmo::Relief ==> w@ == relief_spec(entrenamiento@),
        algoritmo == Algoritmo::ReliefTruncado ==> w@ == truncado_optimo_spec(
            entrenamiento@,
            relief_spec(entrenamiento@),
        ),
        algoritmo == Algoritmo::ReliefAfinidad ==> w@ == afinidad_optima_spec(
            entrenamiento@,
            relief_spec(entrenamiento@),
        ),
        requiere_relief(algoritmo) ==> puntuacion(entrenamiento@, w@) >= puntuacion(
            entrenamiento@,
            relief_spec(entrenamiento@),
        ),
        siempre_normaliza(algoritmo) ==> normalizado(w@) || todo_cero(w@),
        resultado_posible(algoritmo, entrenamiento@, w@),
        busca_por_trayectoria(algoritmo) ==> normal_o_sobre_cero(entrenamiento@, w@),
{
    match algoritmo {
        Algoritmo::UnoNn => {
            let w = uno_nn(entrenamiento);
            assert(w@[0] == UNO);
            w
        },
        Algoritmo::Relief => relief(entrenamiento),
        Algoritmo::BusquedaLocal => busqueda_local(entrenamiento, rng, ruido),
        Algoritmo::AggBlx => agg_blx(entrenamiento, rng, ruido),
        Algoritmo::AggCa => agg_ca(entrenamiento, rng, ruido),
        Algoritmo::AgeBlx => age_blx(entrenamiento, rng, ruido),
        Algoritmo::AgeCa => age_ca(entrenamiento, rng, ruido),
        Algoritmo::AmA => am_a(entrenamiento, rng, ruido),
        Algoritmo::AmB => am_b(entrenamiento, rng, ruido),
        Algoritmo::AmC => am_c(entrenamiento, rng, ruido),
        Algoritmo::ReliefTruncado => relief_truncado(entrenamiento),
        Algoritmo::ReliefAfinidad => relief_afinidad(entrenamiento),
        Algoritmo::BusquedaLocalMut2 => busqueda_local_mut2(entrenamiento, rng, ruido),
        Algoritmo::BusquedaLocalOrden => busqueda_local_orden(entrenamiento, rng, ruido),
        Algoritmo::BusquedaLocalOrdenMut2 => busqueda_local_orden_mut2(entrenamiento, rng, ruido),
        Algoritmo::AggBlxMut2 => agg_blx_mut2(entrenamiento, rng, ruido),
        Algoritmo::AgeBlxMut2 => age_blx_mut2(entrenamiento, rng, ruido),
        Algoritmo::AgeCaAlt => age_ca_alt(entrenamiento, rng, ruido),
        Algoritmo::AmAfinidad01 => am_afinidad_01(entrenamiento, rng, ruido),
        Algoritmo::Es => es(entrenamiento, rng, ruido),
        Algoritmo::Ils => ils(entrenamiento, rng, ruido),
        Algoritmo::DeRand1 => de_rand_1(entrenamiento, rng),
        Algoritmo::DeCtb1 => de_ctb_1(entrenamiento, rng),
        Algoritmo::EsMut2 => es_mut2(entrenamiento, rng, ruido),
        Algoritmo::EsProp => es_prop(entrenamiento, rng, ruido),
        Algoritmo::EsPropMut2 => es_prop_mut2(entrenamiento, rng, ruido),
        Algoritmo::IlsMut2 => ils_mut2(entrenamiento, rng, ruido),
        Algoritmo::IlsAfinidad => ils_afinidad(entrenamiento, rng, ruido),
        Algoritmo::IlsAfinidadRelief => ils_afinidad_relief(entrenamiento, rng, ruido),
    }
}

} // verus!
