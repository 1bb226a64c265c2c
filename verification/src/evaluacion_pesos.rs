//! The objective function: how well a weight vector classifies a sample,
//! and how many attributes it prunes.

use vstd::prelude::*;
use rand::Isaac64Rng;
use crate::aleatorio::{Ruido, generador_desde_semilla, permutacion_aleatoria};
use crate::algoritmos::{
    Algoritmo, aplicable, es_aplicable, ejecutar, lema_aplicable_a_copias, resultado_posible,
    requiere_relief,
};
use crate::funciones_practica2::TAMANO_GENERACIONAL;
use crate::particion::{
    particionar, permutacion_valida, clase_en, pliegue, num_clases, de_clase,
    lema_clase_cuenta, lema_otro_pliegue_toma, lema_pliegue_contiene_tramo, lema_num_clases,
};
use crate::aleatorio::identidad;
use crate::fijo::{UNO, UMBRAL, CIEN, a_escala, esta_a_escala, porcentaje, porcentaje_spec};
use crate::knn::{
    Dato, DatoModelo, Criterio, medibles, muestra_medible, primer_minimo, lema_primer_minimo,
    get_mas_cercano, get_mas_cercano_distinto, equivalentes, lema_primer_minimo_equivalente,
    distancia,
};

verus! {

/// How a test record is matched against the training sample.
#[derive(Clone, Copy, Debug, PartialEq, Eq, Structural)]
pub enum Modo {
    /// The test records are not part of the training sample.
    Retencion,
    /// The test sample is the training sample itself: each record is
    /// matched against all the others (leave-one-out).
    DejarUnoFuera,
}

/// A training sample, a test sample and a weight vector that fit together.
pub open spec fn evaluable(entrenamiento: Seq<Dato>, test: Seq<Dato>, w: Seq<u64>) -> bool {
    &&& entrenamiento.len() > 0
    &&& w.len() <= usize::MAX
    &&& forall|i: int, j: int|
        0 <= i < test.len() && 0 <= j < entrenamiento.len() ==> medibles(
            #[trigger] entrenamiento[j]@,
            #[trigger] test[i]@,
            w,
        )
}

/// A sample that an optimizer can work on: it is not empty, its records
/// have one shape with at least one attribute, and their real attributes
/// lie in `[0, UNO]`.
pub open spec fn muestra_valida(datos: Seq<Dato>) -> bool {
    &&& datos.len() > 0
    &&& 0 < datos[0]@.aridad() <= usize::MAX
    &&& forall|j: int|
        0 <= j < datos.len() ==> (#[trigger] datos[j]@).bien_formado() && datos[j]@.misma_forma(
            datos[0]@,
        )
}

/// Decides `muestra_valida`.
pub fn es_muestra_valida(datos: &[Dato]) -> (b: bool)
    ensures
        b == muestra_valida(datos@),
{
    if datos.len() == 0 {
        return false;
    }
    let nf: usize = datos[0].num_reales();
    let nc: usize = datos[0].num_categoricos();
    if nf > usize::MAX - nc || nf + nc == 0 {
        return false;
    }
    let mut j: usize = 0;
    while j < datos.len()
        invariant
            j <= datos@.len(),
            nf == datos@[0]@.reales.len(),
            nc == datos@[0]@.categoricos.len(),
            forall|k: int|
                0 <= k < j ==> (#[trigger] datos@[k]@).bien_formado() && datos@[k]@.misma_forma(
                    datos@[0]@,
                ),
        decreases datos@.len() - j,
    {
        let d = &datos[j];
        if !d.es_bien_formado() || d.num_reales() != nf || d.num_categoricos() != nc {
            return false;
        }
        j += 1;
    }
    true
}

/// Number of attributes of the records of a sample.
pub open spec fn num_atributos(datos: Seq<Dato>) -> nat {
    datos[0]@.aridad()
}

/// A weight vector for `datos`: one weight in `[0, UNO]` for each attribute.
pub open spec fn pesos_validos(datos: Seq<Dato>, w: Seq<u64>) -> bool {
    w.len() == num_atributos(datos) && a_escala(w)
}

/// Decides `pesos_validos` for a valid sample.
pub fn son_pesos_validos(datos: &[Dato], w: &[u64]) -> (b: bool)
    requires
        muestra_valida(datos@),
    ensures
        b == pesos_validos(datos@, w@),
{
    w.len() == datos[0].num_atributos() && esta_a_escala(w)
}

/// Decides `evaluable`.
pub fn es_evaluable(entrenamiento: &[Dato], test: &[Dato], w: &[u64]) -> (b: bool)
    ensures
        b == evaluable(entrenamiento@, test@, w@),
{
    if entrenamiento.len() == 0 {
        return false;
    }
    let n_pesos: usize = w.len();
    if test.len() == 0 {
        return true;
    }
    let nf: usize = test[0].num_reales();
    let nc: usize = test[0].num_categoricos();
    assert(medibles(entrenamiento@[0]@, test@[0]@, w@) ==> w@.len() == nf + nc && a_escala(w@));
    if nf > usize::MAX - nc || n_pesos != nf + nc || !esta_a_escala(w) {
        return false;
    }
    let mut j: usize = 0;
    while j < entrenamiento.len()
        invariant
            j <= entrenamiento@.len(),
            test@.len() > 0,
            nf == test@[0]@.reales.len(),
            nc == test@[0]@.categoricos.len(),
            forall|k: int|
                0 <= k < j ==> (#[trigger] entrenamiento@[k]@).bien_formado()
                    && entrenamiento@[k]@.misma_forma(test@[0]@),
        decreases entrenamiento@.len() - j,
    {
        let d = &entrenamiento[j];
        if !d.es_bien_formado() || d.num_reales() != nf || d.num_categoricos() != nc {
            assert(!medibles(entrenamiento@[j as int]@, test@[0]@, w@));
            return false;
        }
        j += 1;
    }
    let mut i: usize = 0;
    while i < test.len()
        invariant
            i <= test@.len(),
            test@.len() > 0,
            entrenamiento@.len() > 0,
            nf == test@[0]@.reales.len(),
            nc == test@[0]@.categoricos.len(),
            w@.len() == nf + nc,
            a_escala(w@),
            forall|k: int|
                0 <= k < entrenamiento@.len() ==> (#[trigger] entrenamiento@[k]@).bien_formado()
                    && entrenamiento@[k]@.misma_forma(test@[0]@),
            forall|k: int|
                0 <= k < i ==> (#[trigger] test@[k]@).bien_formado() && test@[k]@.misma_forma(
                    test@[0]@,
                ),
        decreases test@.len() - i,
    {
        let d = &test[i];
        if !d.es_bien_formado() || d.num_reales() != nf || d.num_categoricos() != nc {
            assert(!medibles(entrenamiento@[0]@, test@[i as int]@, w@));
            return false;
        }
        i += 1;
    }
    assert forall|i: int, j: int|
        0 <= i < test@.len() && 0 <= j < entrenamiento@.len() implies medibles(
        #[trigger] entrenamiento@[j]@,
        #[trigger] test@[i]@,
        w@,
    ) by {}
    true
}

/// A valid sample can be evaluated against itself under any valid weight vector.
pub proof fn lema_muestra_evaluable(datos: Seq<Dato>, w: Seq<u64>)
    requires
        muestra_valida(datos),
        pesos_validos(datos, w),
    ensures
        evaluable(datos, datos, w),
        forall|i: int| 0 <= i < datos.len() ==> muestra_medible(datos, #[trigger] datos[i]@, w),
{
}

/// Class that the classifier gives to test record `i`.
pub open spec fn clase_predicha(
    entrenamiento: Seq<Dato>,
    test: Seq<Dato>,
    w: Seq<u64>,
    modo: Modo,
    i: int,
) -> i32 {
    let excluido = if modo == Modo::DejarUnoFuera {
        Some(i as usize)
    } else {
        None
    };
    entrenamiento[primer_minimo(
        entrenamiento,
        test[i]@,
        w,
        Criterio::Cualquiera,
        excluido,
        entrenamiento.len(),
    )]@.categoria
}

/// Number of records among the first `n` of `test` that are given their own class.
pub open spec fn aciertos(
    entrenamiento: Seq<Dato>,
    test: Seq<Dato>,
    w: Seq<u64>,
    modo: Modo,
    n: nat,
) -> nat
    decreases n,
{
    if n == 0 {
        0
    } else {
        aciertos(entrenamiento, test, w, modo, (n - 1) as nat) + (if clase_predicha(
            entrenamiento,
            test,
            w,
            modo,
            n - 1,
        ) == test[n - 1]@.categoria {
            1nat
        } else {
            0nat
        })
    }
}

/// Percentage of the test records that are given their own class.
pub open spec fn tasa_clasificacion(
    entrenamiento: Seq<Dato>,
    test: Seq<Dato>,
    w: Seq<u64>,
    modo: Modo,
) -> nat {
    porcentaje_spec(aciertos(entrenamiento, test, w, modo, test.len()), test.len())
}

/// Number of weights among the first `n` that lie below the threshold.
pub open spec fn podados(w: Seq<u64>, n: nat) -> nat
    decreases n,
{
    if n == 0 {
        0
    } else {
        podados(w, (n - 1) as nat) + (if w[n - 1] < UMBRAL {
            1nat
        } else {
            0nat
        })
    }
}

/// Where every weight among the first `n` is pruned they all count,
/// and where none is none counts.
pub proof fn lema_podados_extremos(w: Seq<u64>, n: nat)
    requires
        n <= w.len(),
    ensures
        (forall|i: int| 0 <= i < n ==> #[trigger] w[i] < UMBRAL) ==> podados(w, n) == n,
        (forall|i: int| 0 <= i < n ==> #[trigger] w[i] >= UMBRAL) ==> podados(w, n) == 0,
    decreases n,
{
    if n > 0 {
        lema_podados_extremos(w, (n - 1) as nat);
    }
}

/// Percentage of the weights that lie below the threshold.
pub open spec fn tasa_simplicidad(w: Seq<u64>) -> nat {
    porcentaje_spec(podados(w, w.len()), w.len())
}

/// The simplicity rate is a hundred times the number of weights below
/// the threshold over the number of weights: zero for a vector that
/// prunes nothing, such as one of ones, and a hundred for one that prunes
/// everything, such as one of zeros.
pub proof fn lema_simplicidad(w: Seq<u64>)
    requires
        w.len() > 0,
    ensures
        tasa_simplicidad(w) == (100 * UNO * podados(w, w.len())) as int / (w.len() as int),
        (forall|i: int| 0 <= i < w.len() ==> #[trigger] w[i] >= UMBRAL) ==> tasa_simplicidad(w) == 0,
        (forall|i: int| 0 <= i < w.len() ==> #[trigger] w[i] < UMBRAL) ==> tasa_simplicidad(w)
            == CIEN,
{
    lema_podados_extremos(w, w.len());
    let n = w.len() as int;
    assert(CIEN * n / n == CIEN) by (nonlinear_arith)
        requires
            n > 0,
    ;
    assert(CIEN * 0 / n == 0) by (nonlinear_arith)
        requires
            n > 0,
    ;
}

/// Mean of the two rates, rounded down.
pub open spec fn agregado(tasa_clas: nat, tasa_red: nat) -> nat {
    (tasa_clas + tasa_red) / 2
}

/// The objective function: the mean of the leave-one-out classification
/// rate of `w` on `datos` and of the simplicity rate of `w`.
pub open spec fn puntuacion(datos: Seq<Dato>, w: Seq<u64>) -> nat {
    agregado(tasa_clasificacion(datos, datos, w, Modo::DejarUnoFuera), tasa_simplicidad(w))
}

/// Scores a weight vector by the percentage of `test` that the
/// nearest-neighbour rule classifies well against `entrenamiento`.
pub fn evaluar_clasificacion(entrenamiento: &[Dato], test: &[Dato], w: &[u64], modo: Modo) -> (t:
    u64)
    requires
        evaluable(entrenamiento@, test@, w@),
        modo == Modo::DejarUnoFuera ==> test@ == entrenamiento@,
    ensures
        t == tasa_clasificacion(entrenamiento@, test@, w@, modo),
        t <= CIEN,
{
    let mut bien_clasificadas: usize = 0;
    let mut i: usize = 0;
    while i < test.len()
        invariant
            i <= test@.len(),
            evaluable(entrenamiento@, test@, w@),
            modo == Modo::DejarUnoFuera ==> test@ == entrenamiento@,
            bien_clasificadas == aciertos(entrenamiento@, test@, w@, modo, i as nat),
            bien_clasificadas <= i,
        decreases test@.len() - i,
    {
        assert(muestra_medible(entrenamiento@, test@[i as int]@, w@));
        let predicha = match modo {
            Modo::DejarUnoFuera => get_mas_cercano_distinto(entrenamiento, i, w),
            Modo::Retencion => get_mas_cercano(entrenamiento, &test[i], w),
        };
        if predicha == test[i].id_categoria() {
            bien_clasificadas += 1;
        }
        i += 1;
    }
    porcentaje(bien_clasificadas, test.len())
}

/// Scores a weight vector by the percentage of its components that are pruned.
pub fn evaluar_simplicidad(w: &[u64]) -> (t: u64)
    ensures
        t == tasa_simplicidad(w@),
        t <= CIEN,
{
    let mut cuenta: usize = 0;
    let mut i: usize = 0;
    while i < w.len()
        invariant
            i <= w@.len(),
            cuenta == podados(w@, i as nat),
            cuenta <= i,
        decreases w@.len() - i,
    {
        if w[i] < UMBRAL {
            cuenta += 1;
        }
        i += 1;
    }
    porcentaje(cuenta, w.len())
}

/// Blends a classification rate and a simplicity rate with equal weight.
pub fn evaluar_agregado(tasa_clas: u64, tasa_red: u64) -> (t: u64)
    ensures
        t == agregado(tasa_clas as nat, tasa_red as nat),
{
    ((tasa_clas as u128 + tasa_red as u128) / 2) as u64
}

/// The objective function that every optimizer maximizes.
pub fn evaluar(datos: &[Dato], w: &[u64]) -> (t: u64)
    requires
        evaluable(datos@, datos@, w@),
    ensures
        t == puntuacion(datos@, w@),
        t <= CIEN,
{
    let tasa_clas = evaluar_clasificacion(datos, datos, w, Modo::DejarUnoFuera);
    let tasa_red = evaluar_simplicidad(w);
    evaluar_agregado(tasa_clas, tasa_red)
}


/// Equivalent weight vectors classify the same records well.
pub proof fn lema_aciertos_equivalentes(
    entrenamiento: Seq<Dato>,
    test: Seq<Dato>,
    w1: Seq<u64>,
    w2: Seq<u64>,
    modo: Modo,
    n: nat,
)
    requires
        equivalentes(w1, w2),
        n <= test.len(),
        forall|j: int|
            0 <= j < entrenamiento.len() ==> w1.len() == (#[trigger] entrenamiento[j]@).aridad(),
    ensures
        aciertos(entrenamiento, test, w1, modo, n) == aciertos(entrenamiento, test, w2, modo, n),
    decreases n,
{
    if n > 0 {
        lema_aciertos_equivalentes(entrenamiento, test, w1, w2, modo, (n - 1) as nat);
        let excluido = if modo == Modo::DejarUnoFuera {
            Some((n - 1) as usize)
        } else {
            None
        };
        lema_primer_minimo_equivalente(
            entrenamiento,
            test[n - 1]@,
            w1,
            w2,
            Criterio::Cualquiera,
            excluido,
            entrenamiento.len(),
        );
    }
}

/// Equivalent weight vectors prune the same number of attributes.
pub proof fn lema_podados_equivalentes(w1: Seq<u64>, w2: Seq<u64>, n: nat)
    requires
        equivalentes(w1, w2),
        n <= w1.len(),
    ensures
        podados(w1, n) == podados(w2, n),
    decreases n,
{
    if n > 0 {
        lema_podados_equivalentes(w1, w2, (n - 1) as nat);
        assert(w1[n - 1] >= UMBRAL || w2[n - 1] >= UMBRAL ==> w1[n - 1] == w2[n - 1]);
    }
}

/// What a weight vector does below the threshold does not change its
/// score: pruned attributes add nothing to any distance, and count as
/// pruned whatever their weight.
pub proof fn lema_puntuacion_equivalente(datos: Seq<Dato>, w1: Seq<u64>, w2: Seq<u64>)
    requires
        muestra_valida(datos),
        equivalentes(w1, w2),
        w1.len() == num_atributos(datos),
    ensures
        puntuacion(datos, w1) == puntuacion(datos, w2),
{
    lema_aciertos_equivalentes(datos, datos, w1, w2, Modo::DejarUnoFuera, datos.len());
    lema_podados_equivalentes(w1, w2, w1.len());
}


/// The sample holds a record equal to `d`.
pub open spec fn contiene_dato(e: Seq<Dato>, d: DatoModelo) -> bool {
    exists|j: int| 0 <= j < e.len() && (#[trigger] e[j])@ == d
}

/// Two samples hold the same records, in whatever order and number.
pub open spec fn mismos_datos(e1: Seq<Dato>, e2: Seq<Dato>) -> bool {
    &&& forall|i: int| 0 <= i < e1.len() ==> contiene_dato(e2, (#[trigger] e1[i])@)
    &&& forall|j: int| 0 <= j < e2.len() ==> contiene_dato(e1, (#[trigger] e2[j])@)
}

/// The records of `e` that lie as near to `d` as the nearest all have
/// one class: the class of the nearest does not depend on which of them
/// is found.
pub open spec fn sin_empate_de_clases(e: Seq<Dato>, d: DatoModelo, w: Seq<u64>) -> bool {
    forall|j: int|
        0 <= j < e.len() && #[trigger] distancia(e[j]@, d, w) == distancia(
            e[primer_minimo(e, d, w, Criterio::Cualquiera, None, e.len())]@,
            d,
            w,
        ) ==> e[j]@.categoria == e[primer_minimo(
            e,
            d,
            w,
            Criterio::Cualquiera,
            None,
            e.len(),
        )]@.categoria
}

/// Where no tie is between classes, the class given to a record does
/// not depend on the order of the training sample.
pub proof fn lema_clase_sin_orden(e1: Seq<Dato>, e2: Seq<Dato>, test: Seq<Dato>, w: Seq<u64>, t: int)
    requires
        e1.len() > 0,
        mismos_datos(e1, e2),
        0 <= t < test.len(),
        sin_empate_de_clases(e1, test[t]@, w),
    ensures
        clase_predicha(e1, test, w, Modo::Retencion, t) == clase_predicha(
            e2,
            test,
            w,
            Modo::Retencion,
            t,
        ),
{
    let d = test[t]@;
    assert(contiene_dato(e2, e1[0]@));
    lema_primer_minimo(e1, d, w, Criterio::Cualquiera, None, e1.len());
    lema_primer_minimo(e2, d, w, Criterio::Cualquiera, None, e2.len());
    let m1 = primer_minimo(e1, d, w, Criterio::Cualquiera, None, e1.len());
    let m2 = primer_minimo(e2, d, w, Criterio::Cualquiera, None, e2.len());
    assert(contiene_dato(e1, e2[m2]@));
    assert(contiene_dato(e2, e1[m1]@));
    let i = choose|i: int| 0 <= i < e1.len() && (#[trigger] e1[i])@ == e2[m2]@;
    let j = choose|j: int| 0 <= j < e2.len() && (#[trigger] e2[j])@ == e1[m1]@;
    assert(crate::knn::clave(e1, d, w, Criterio::Cualquiera, None, m1) <= crate::knn::clave(
        e1,
        d,
        w,
        Criterio::Cualquiera,
        None,
        i,
    ));
    assert(crate::knn::clave(e2, d, w, Criterio::Cualquiera, None, m2) <= crate::knn::clave(
        e2,
        d,
        w,
        Criterio::Cualquiera,
        None,
        j,
    ));
    assert(distancia(e1[i]@, d, w) == distancia(e1[m1]@, d, w));
}

/// The classification rate does not depend on the order of the training
/// sample, as long as no test record has its nearest training records in
/// more than one class.
pub proof fn lema_tasa_sin_orden(e1: Seq<Dato>, e2: Seq<Dato>, test: Seq<Dato>, w: Seq<u64>)
    requires
        e1.len() > 0,
        mismos_datos(e1, e2),
        forall|t: int| 0 <= t < test.len() ==> sin_empate_de_clases(e1, #[trigger] test[t]@, w),
    ensures
        tasa_clasificacion(e1, test, w, Modo::Retencion) == tasa_clasificacion(
            e2,
            test,
            w,
            Modo::Retencion,
        ),
{
    lema_aciertos_sin_orden(e1, e2, test, w, test.len());
}

/// The count behind `lema_tasa_sin_orden`.
proof fn lema_aciertos_sin_orden(e1: Seq<Dato>, e2: Seq<Dato>, test: Seq<Dato>, w: Seq<u64>, n: nat)
    requires
        e1.len() > 0,
        mismos_datos(e1, e2),
        n <= test.len(),
        forall|t: int| 0 <= t < test.len() ==> sin_empate_de_clases(e1, #[trigger] test[t]@, w),
    ensures
        aciertos(e1, test, w, Modo::Retencion, n) == aciertos(e2, test, w, Modo::Retencion, n),
    decreases n,
{
    if n > 0 {
        lema_aciertos_sin_orden(e1, e2, test, w, (n - 1) as nat);
        lema_clase_sin_orden(e1, e2, test, w, n - 1);
    }
}

/// Number of records of class `c` among the first `n`.
pub open spec fn cuenta_clase(vm: Seq<Dato>, c: int, n: nat) -> nat
    decreases n,
{
    if n == 0 {
        0
    } else {
        cuenta_clase(vm, c, (n - 1) as nat) + (if vm[n - 1]@.categoria == c {
            1nat
        } else {
            0nat
        })
    }
}

/// No class has more records than there are.
pub proof fn lema_cuenta_acotada(vm: Seq<Dato>, c: int, n: nat)
    ensures
        cuenta_clase(vm, c, n) <= n,
    decreases n,
{
    if n > 0 {
        lema_cuenta_acotada(vm, c, (n - 1) as nat);
    }
}

/// No record has a negative class.
pub open spec fn clases_no_negativas(vm: Seq<Dato>) -> bool {
    forall|j: int| 0 <= j < vm.len() ==> (#[trigger] vm[j]@).categoria >= 0
}

/// Decides `clases_no_negativas`.
pub fn tiene_clases_no_negativas(vm: &[Dato]) -> (b: bool)
    ensures
        b == clases_no_negativas(vm@),
{
    let mut j: usize = 0;
    while j < vm.len()
        invariant
            j <= vm@.len(),
            forall|k: int| 0 <= k < j ==> (#[trigger] vm@[k]@).categoria >= 0,
        decreases vm@.len() - j,
    {
        if vm[j].id_categoria() < 0 {
            return false;
        }
        j += 1;
    }
    true
}

/// The distribution of the classes of a sample: how many records each
/// class has, for the classes from zero to the largest that occurs.
pub fn get_distribucion_clases(vm: &[Dato]) -> (contador: Vec<u32>)
    requires
        clases_no_negativas(vm@),
        vm@.len() <= u32::MAX,
    ensures
        forall|c: int|
            0 <= c < contador@.len() ==> #[trigger] contador@[c] == cuenta_clase(vm@, c, vm@.len()),
        forall|j: int| 0 <= j < vm@.len() ==> (#[trigger] vm@[j]@).categoria < contador@.len(),
        contador@.len() > 0 ==> contador@[contador@.len() - 1] > 0,
{
    let mut contador: Vec<u32> = Vec::new();
    let mut i: usize = 0;
    while i < vm.len()
        invariant
            i <= vm@.len(),
            clases_no_negativas(vm@),
            vm@.len() <= u32::MAX,
            forall|c: int|
                0 <= c < contador@.len() ==> #[trigger] contador@[c] == cuenta_clase(vm@, c, i as nat),
            forall|j: int| 0 <= j < i ==> (#[trigger] vm@[j]@).categoria < contador@.len(),
            forall|c: int| c >= contador@.len() ==> cuenta_clase(vm@, c, i as nat) == 0,
            contador@.len() > 0 ==> contador@[contador@.len() - 1] > 0,
            contador@.len() <= 0x8000_0000,
        decreases vm@.len() - i,
    {
        let cat: i32 = vm[i].id_categoria();
        assert(vm@[i as int]@.categoria >= 0);
        let ghost inicial = contador@;
        while cat as usize >= contador.len()
            invariant
                cat >= 0,
                contador@.len() <= cat + 1 || contador@.len() == inicial.len(),
                inicial.len() <= contador@.len(),
                forall|c: int| 0 <= c < inicial.len() ==> #[trigger] contador@[c] == inicial[c],
                forall|c: int| inicial.len() <= c < contador@.len() ==> #[trigger] contador@[c] == 0,
            decreases cat + 1 - contador@.len(),
        {
            contador.push(0);
        }
        proof {
            lema_cuenta_acotada(vm@, cat as int, i as nat);
            assert forall|c: int| 0 <= c < contador@.len() implies #[trigger] contador@[c]
                == cuenta_clase(vm@, c, i as nat) by {
                if c >= inicial.len() {
                    assert(cuenta_clase(vm@, c, i as nat) == 0);
                }
            }
            let n1 = (i + 1) as nat;
            assert forall|c: int| c >= contador@.len() implies #[trigger] cuenta_clase(vm@, c, n1)
                == 0 by {
                assert(cuenta_clase(vm@, c, i as nat) == 0);
            }
        }
        let previo: u32 = contador[cat as usize];
        contador.set(cat as usize, previo + 1);
        i += 1;
    }
    contador
}

/// The records of `vm` that belong to the class `id`, in their order.
pub fn get_datos_de_clase<'a>(vm: &[&'a Dato], id: i32) -> (r: Vec<&'a Dato>)
    ensures
        r@ == vm@.filter(|m: &Dato| m@.categoria == id),
{
    let ghost pred = |m: &Dato| m@.categoria == id;
    let mut r: Vec<&'a Dato> = Vec::new();
    let mut i: usize = 0;
    while i < vm.len()
        invariant
            i <= vm@.len(),
            pred == (|m: &Dato| m@.categoria == id),
            r@ == vm@.subrange(0, i as int).filter(pred),
        decreases vm@.len() - i,
    {
        proof {
            let antes = vm@.subrange(0, i as int);
            let ahora = vm@.subrange(0, i + 1);
            assert(ahora.drop_last() =~= antes);
            assert(ahora.last() == vm@[i as int]);
            reveal(Seq::filter);
        }
        if vm[i].id_categoria() == id {
            r.push(vm[i]);
        }
        i += 1;
    }
    assert(vm@.subrange(0, vm@.len() as int) =~= vm@);
    r
}

/// The classification rate, the simplicity rate and their mean that a
/// weight vector reaches on a test sample.
#[derive(Clone, Copy, Debug, PartialEq, Eq, Structural)]
pub struct Estadisticos {
    pub tasa_clas: u64,
    pub tasa_red: u64,
    pub agregado: u64,
}

/// Measures a weight vector learnt from `entrenamiento` on the records of `test`.
pub fn medir(entrenamiento: &[Dato], test: &[Dato], pesos: &[u64]) -> (r: Estadisticos)
    requires
        evaluable(entrenamiento@, test@, pesos@),
    ensures
        r.tasa_clas == tasa_clasificacion(entrenamiento@, test@, pesos@, Modo::Retencion),
        r.tasa_red == tasa_simplicidad(pesos@),
        r.agregado == agregado(r.tasa_clas as nat, r.tasa_red as nat),
        r.tasa_clas <= CIEN,
        r.tasa_red <= CIEN,
{
    let tasa_clas = evaluar_clasificacion(entrenamiento, test, pesos, Modo::Retencion);
    let tasa_red = evaluar_simplicidad(pesos);
    let agregado = evaluar_agregado(tasa_clas, tasa_red);
    Estadisticos { tasa_clas, tasa_red, agregado }
}

/// Sum of the first `n` values that `campo` picks: 0 for the
/// classification rate, 1 for the simplicity rate, 2 for their mean.
pub open spec fn suma_de(estadisticos: Seq<Estadisticos>, campo: int, n: nat) -> nat
    decreases n,
{
    if n == 0 {
        0
    } else {
        let x = estadisticos[n - 1];
        suma_de(estadisticos, campo, (n - 1) as nat) + (if campo == 0 {
            x.tasa_clas
        } else if campo == 1 {
            x.tasa_red
        } else {
            x.agregado
        }) as nat
    }
}

/// The sum of `n` values is at most `n` times the largest `u64`.
pub proof fn lema_suma_acotada(estadisticos: Seq<Estadisticos>, campo: int, n: nat)
    ensures
        suma_de(estadisticos, campo, n) <= n * u64::MAX,
    decreases n,
{
    if n > 0 {
        lema_suma_acotada(estadisticos, campo, (n - 1) as nat);
        assert(n * u64::MAX == (n - 1) * u64::MAX + u64::MAX) by (nonlinear_arith);
    }
}

/// The arithmetic means of the three rates over some folds, rounded
/// down; zeros for no fold.
pub fn medias(estadisticos: &[Estadisticos]) -> (m: Estadisticos)
    ensures
        estadisticos@.len() == 0 ==> m == (Estadisticos { tasa_clas: 0, tasa_red: 0, agregado: 0 }),
        estadisticos@.len() > 0 ==> {
            &&& m.tasa_clas == suma_de(estadisticos@, 0, estadisticos@.len()) / estadisticos@.len()
            &&& m.tasa_red == suma_de(estadisticos@, 1, estadisticos@.len()) / estadisticos@.len()
            &&& m.agregado == suma_de(estadisticos@, 2, estadisticos@.len()) / estadisticos@.len()
        },
{
    let n: usize = estadisticos.len();
    if n == 0 {
        return Estadisticos { tasa_clas: 0, tasa_red: 0, agregado: 0 };
    }
    let mut s0: u128 = 0;
    let mut s1: u128 = 0;
    let mut s2: u128 = 0;
    let mut i: usize = 0;
    while i < n
        invariant
            i <= n,
            n == estadisticos@.len(),
            s0 == suma_de(estadisticos@, 0, i as nat),
            s1 == suma_de(estadisticos@, 1, i as nat),
            s2 == suma_de(estadisticos@, 2, i as nat),
        decreases n - i,
    {
        proof {
            lema_suma_acotada(estadisticos@, 0, (i + 1) as nat);
            lema_suma_acotada(estadisticos@, 1, (i + 1) as nat);
            lema_suma_acotada(estadisticos@, 2, (i + 1) as nat);
            assert((i + 1) * u64::MAX <= usize::MAX * u64::MAX) by (nonlinear_arith)
                requires
                    i + 1 <= usize::MAX,
            ;
        }
        s0 = s0 + estadisticos[i].tasa_clas as u128;
        s1 = s1 + estadisticos[i].tasa_red as u128;
        s2 = s2 + estadisticos[i].agregado as u128;
        i += 1;
    }
    proof {
        lema_suma_acotada(estadisticos@, 0, n as nat);
        lema_suma_acotada(estadisticos@, 1, n as nat);
        lema_suma_acotada(estadisticos@, 2, n as nat);
        assert(s0 / (n as u128) <= u64::MAX && s1 / (n as u128) <= u64::MAX && s2 / (n as u128)
            <= u64::MAX) by (nonlinear_arith)
            requires
                s0 <= n * u64::MAX,
                s1 <= n * u64::MAX,
                s2 <= n * u64::MAX,
                n > 0,
        ;
    }
    Estadisticos {
        tasa_clas: (s0 / n as u128) as u64,
        tasa_red: (s1 / n as u128) as u64,
        agregado: (s2 / n as u128) as u64,
    }
}

/// Copies of the records at the given positions, in their order.
pub fn conjunto(datos: &[Dato], indices: &[usize]) -> (r: Vec<Dato>)
    requires
        forall|k: int| 0 <= k < indices@.len() ==> #[trigger] indices@[k] < datos@.len(),
    ensures
        r@.len() == indices@.len(),
        forall|k: int| 0 <= k < indices@.len() ==> (#[trigger] r@[k])@ == datos@[indices@[k] as int]@,
{
    let mut r: Vec<Dato> = Vec::new();
    let mut k: usize = 0;
    while k < indices.len()
        invariant
            k <= indices@.len(),
            forall|j: int| 0 <= j < indices@.len() ==> #[trigger] indices@[j] < datos@.len(),
            r@.len() == k,
            forall|j: int| 0 <= j < k ==> (#[trigger] r@[j])@ == datos@[indices@[j] as int]@,
        decreases indices@.len() - k,
    {
        r.push(datos[indices[k]].clonar());
        k += 1;
    }
    r
}

/// The positions of all folds but `i`, fold after fold.
pub open spec fn resto_de(particion: Seq<Vec<usize>>, i: int, n: nat) -> Seq<usize>
    decreases n,
{
    if n == 0 {
        Seq::empty()
    } else if n - 1 == i {
        resto_de(particion, i, (n - 1) as nat)
    } else {
        resto_de(particion, i, (n - 1) as nat) + particion[n - 1]@
    }
}

/// The positions of the training sample of fold `i`: those of all the other folds.
pub fn indices_entrenamiento(particion: &Vec<Vec<usize>>, i: usize) -> (r: Vec<usize>)
    ensures
        r@ == resto_de(particion@, i as int, particion@.len()),
{
    let mut r: Vec<usize> = Vec::new();
    let mut j: usize = 0;
    while j < particion.len()
        invariant
            j <= particion@.len(),
            r@ == resto_de(particion@, i as int, j as nat),
        decreases particion@.len() - j,
    {
        if j != i {
            let fold = &particion[j];
            let ghost antes = r@;
            let mut k: usize = 0;
            while k < fold.len()
                invariant
                    k <= fold@.len(),
                    r@ == antes + fold@.subrange(0, k as int),
                decreases fold@.len() - k,
            {
                r.push(fold[k]);
                assert(fold@.subrange(0, k as int).push(fold@[k as int]) =~= fold@.subrange(
                    0,
                    k + 1,
                ));
                assert(r@ =~= antes + fold@.subrange(0, k + 1));
                k += 1;
            }
            assert(fold@.subrange(0, fold@.len() as int) =~= fold@);
        }
        j += 1;
    }
    r
}

/// Every position of `resto_de` is one of some fold.
pub proof fn lema_resto_valido(particion: Seq<Vec<usize>>, i: int, n: nat, cota: nat)
    requires
        n <= particion.len(),
        forall|j: int, k: int|
            0 <= j < particion.len() && 0 <= k < particion[j]@.len() ==> (
            #[trigger] particion[j]@[k]) < cota,
    ensures
        forall|k: int|
            0 <= k < resto_de(particion, i, n).len() ==> #[trigger] resto_de(particion, i, n)[k]
                < cota,
    decreases n,
{
    if n > 0 {
        lema_resto_valido(particion, i, (n - 1) as nat, cota);
        let previo = resto_de(particion, i, (n - 1) as nat);
        let ahora = resto_de(particion, i, n);
        assert forall|k: int| 0 <= k < ahora.len() implies #[trigger] ahora[k] < cota by {
            if k >= previo.len() {
                assert(ahora[k] == particion[n - 1]@[k - previo.len()]);
            }
        }
    }
}

/// Number of folds of the cross-validation.
pub const N_FOLD: usize = 5;

/// Why a cross-validation could not be run.
#[derive(Clone, Copy, Debug, PartialEq, Eq, Structural)]
pub enum ErrorValidacion {
    /// The sample is empty, its records do not have one shape with
    /// attributes within range, or one has a negative class.
    MuestraInvalida,
    /// The algorithm cannot run on the training sample of the fold
    /// with this number: the sample is empty, or the algorithm needs a
    /// friend and an enemy for every record and some record has none.
    AlgoritmoNoAplicable(usize),
}

/// A sample that can be cross-validated.
pub open spec fn validable(datos: Seq<Dato>) -> bool {
    muestra_valida(datos) && clases_no_negativas(datos)
}

/// Records that are copies of records of a valid sample can be
/// measured against each other under any weight vector for it.
proof fn lema_copias_evaluables(
    datos: Seq<Dato>,
    entrenamiento: Seq<Dato>,
    test: Seq<Dato>,
    w: Seq<u64>,
)
    requires
        muestra_valida(datos),
        muestra_valida(entrenamiento),
        forall|k: int|
            0 <= k < entrenamiento.len() ==> exists|j: int|
                0 <= j < datos.len() && (#[trigger] entrenamiento[k])@ == datos[j]@,
        forall|k: int|
            0 <= k < test.len() ==> exists|j: int|
                0 <= j < datos.len() && (#[trigger] test[k])@ == datos[j]@,
        pesos_validos(entrenamiento, w),
    ensures
        evaluable(entrenamiento, test, w),
{
    assert forall|i: int, j: int|
        0 <= i < test.len() && 0 <= j < entrenamiento.len() implies medibles(
        #[trigger] entrenamiento[j]@,
        #[trigger] test[i]@,
        w,
    ) by {
        let a = choose|a: int| 0 <= a < datos.len() && entrenamiento[j]@ == datos[a]@;
        let b = choose|b: int| 0 <= b < datos.len() && test[i]@ == datos[b]@;
        let c = choose|c: int| 0 <= c < datos.len() && entrenamiento[0]@ == datos[c]@;
        assert(datos[a]@.misma_forma(datos[0]@));
        assert(datos[b]@.misma_forma(datos[0]@));
        assert(datos[c]@.misma_forma(datos[0]@));
    }
}

/// The records at the given positions, in their order.
pub open spec fn seleccion_de(datos: Seq<Dato>, indices: Seq<usize>) -> Seq<Dato> {
    Seq::new(indices.len(), |k: int| datos[indices[k] as int])
}

/// The records of `a` hold what those of `b` hold, one by one.
pub open spec fn es_copia(a: Seq<Dato>, b: Seq<Dato>) -> bool {
    a.len() == b.len() && forall|k: int| 0 <= k < a.len() ==> (#[trigger] a[k])@ == b[k]@
}

/// The measures of the weights `w`, learnt from `e`, on the records of `t`.
pub open spec fn medida(e: Seq<Dato>, t: Seq<Dato>, w: Seq<u64>) -> Estadisticos {
    let tasa_clas = tasa_clasificacion(e, t, w, Modo::Retencion);
    let tasa_red = tasa_simplicidad(w);
    Estadisticos {
        tasa_clas: tasa_clas as u64,
        tasa_red: tasa_red as u64,
        agregado: agregado(tasa_clas, tasa_red) as u64,
    }
}

/// The training sample of fold `i`: the records of all the other folds.
pub open spec fn entrenamiento_de(datos: Seq<Dato>, particion: Seq<Vec<usize>>, i: int) -> Seq<Dato> {
    seleccion_de(datos, resto_de(particion, i, particion.len()))
}

/// `m` may be the measures of fold `i`: those of a weight vector that
/// the algorithm may return on a copy of the training sample of the
/// fold, taken on a copy of the records of the fold.
pub open spec fn es_medida_de_pliegue(
    algoritmo: Algoritmo,
    datos: Seq<Dato>,
    particion: Seq<Vec<usize>>,
    i: int,
    m: Estadisticos,
) -> bool {
    exists|e: Seq<Dato>, t: Seq<Dato>, w: Seq<u64>|
        {
            &&& es_copia(e, entrenamiento_de(datos, particion, i))
            &&& es_copia(t, seleccion_de(datos, particion[i]@))
            &&& pesos_validos(e, w)
            &&& resultado_posible(algoritmo, e, w)
            &&& m == #[trigger] medida(e, t, w)
        }
}

/// Runs an algorithm on the training sample of one fold and measures
/// the weights on its test sample.  Fails if the algorithm cannot run
/// on that training sample, and only then.
pub fn validar_pliegue<R: Ruido>(
    algoritmo: Algoritmo,
    datos: &[Dato],
    particion: &Vec<Vec<usize>>,
    i: usize,
    rng: &mut Isaac64Rng,
    ruido: &R,
) -> (r: Result<Estadisticos, ErrorValidacion>)
    requires
        muestra_valida(datos@),
        i < particion@.len(),
        forall|j: int, k: int|
            0 <= j < particion@.len() && 0 <= k < particion@[j]@.len() ==> (
            #[trigger] particion@[j]@[k]) < datos@.len(),
    ensures
        r is Err <==> !aplicable(
            algoritmo,
            seleccion_de(datos@, resto_de(particion@, i as int, particion@.len())),
        ),
        r is Err ==> r == Err::<Estadisticos, ErrorValidacion>(
            ErrorValidacion::AlgoritmoNoAplicable(i),
        ),
        r is Ok ==> r.unwrap().agregado == agregado(
            r.unwrap().tasa_clas as nat,
            r.unwrap().tasa_red as nat,
        ) && r.unwrap().tasa_clas <= CIEN && r.unwrap().tasa_red <= CIEN,
        r is Ok ==> es_medida_de_pliegue(algoritmo, datos@, particion@, i as int, r.unwrap()),
{
    proof {
        lema_resto_valido(particion@, i as int, particion@.len(), datos@.len());
    }
    let indices = indices_entrenamiento(particion, i);
    let entrenamiento = conjunto(datos, indices.as_slice());
    let test = conjunto(datos, particion[i].as_slice());
    proof {
        lema_aplicable_a_copias(algoritmo, entrenamiento@, seleccion_de(datos@, indices@));
    }
    if !es_aplicable(algoritmo, entrenamiento.as_slice()) {
        return Err(ErrorValidacion::AlgoritmoNoAplicable(i));
    }
    let pesos = ejecutar(algoritmo, entrenamiento.as_slice(), rng, ruido);
    proof {
        assert forall|k: int| 0 <= k < entrenamiento@.len() implies exists|j: int|
            0 <= j < datos@.len() && (#[trigger] entrenamiento@[k])@ == datos@[j]@ by {
            assert(entrenamiento@[k]@ == datos@[indices@[k] as int]@);
        }
        assert forall|k: int| 0 <= k < test@.len() implies exists|j: int|
            0 <= j < datos@.len() && (#[trigger] test@[k])@ == datos@[j]@ by {
            assert(test@[k]@ == datos@[particion@[i as int]@[k] as int]@);
        }
        lema_copias_evaluables(datos@, entrenamiento@, test@, pesos@);
    }
    let m = medir(entrenamiento.as_slice(), test.as_slice(), pesos.as_slice());
    proof {
        assert(es_copia(entrenamiento@, entrenamiento_de(datos@, particion@, i as int)));
        assert(es_copia(test@, seleccion_de(datos@, particion@[i as int]@)));
        assert(m == medida(entrenamiento@, test@, pesos@));
    }
    Ok(m)
}

/// The outcome of a cross-validation: the measures of every fold, in
/// order, and their arithmetic means.
pub struct Validacion {
    pub pliegues: Vec<Estadisticos>,
    pub medias: Estadisticos,
}

/// The means of `v` are those of its folds, of which there are `N_FOLD`,
/// and every fold carries the mean of its two rates.
pub open spec fn validacion_coherente(v: Validacion) -> bool {
    &&& v.pliegues@.len() == N_FOLD
    &&& v.medias.tasa_clas == suma_de(v.pliegues@, 0, N_FOLD as nat) / (N_FOLD as nat)
    &&& v.medias.tasa_red == suma_de(v.pliegues@, 1, N_FOLD as nat) / (N_FOLD as nat)
    &&& v.medias.agregado == suma_de(v.pliegues@, 2, N_FOLD as nat) / (N_FOLD as nat)
    &&& forall|i: int|
        0 <= i < N_FOLD ==> (#[trigger] v.pliegues@[i]).agregado == agregado(
            v.pliegues@[i].tasa_clas as nat,
            v.pliegues@[i].tasa_red as nat,
        )
}

/// `particion` is the split of the records, dealt out in the order
/// `perm`, into `N_FOLD` stratified folds.
pub open spec fn es_particion_de(
    datos: Seq<Dato>,
    perm: Seq<usize>,
    particion: Seq<Vec<usize>>,
) -> bool {
    &&& perm.to_multiset() == identidad(datos.len()).to_multiset()
    &&& permutacion_valida(datos, perm)
    &&& particion.len() == N_FOLD
    &&& forall|i: int|
        0 <= i < N_FOLD ==> (#[trigger] particion[i])@ == pliegue(
            datos,
            perm,
            N_FOLD as nat,
            i as nat,
            num_clases(datos, perm, perm.len()),
        )
    &&& forall|j: int, k: int|
        0 <= j < particion.len() && 0 <= k < particion[j]@.len() ==> (#[trigger] particion[j]@[k])
            < datos.len()
}

/// Fold `j` was validated: the algorithm can run on its training
/// sample, and `m` may be its measures.
pub open spec fn pliegue_validado(
    algoritmo: Algoritmo,
    datos: Seq<Dato>,
    particion: Seq<Vec<usize>>,
    j: int,
    m: Estadisticos,
) -> bool {
    aplicable(algoritmo, entrenamiento_de(datos, particion, j)) && es_medida_de_pliegue(
        algoritmo,
        datos,
        particion,
        j,
        m,
    )
}

/// `r` may be the outcome of the cross-validation on the folds
/// `particion`.  It fails at the first fold on whose training sample
/// the algorithm cannot run; if there is none, it holds for every fold
/// measures that the fold may have, and their means.
pub open spec fn es_validacion_de(
    algoritmo: Algoritmo,
    datos: Seq<Dato>,
    particion: Seq<Vec<usize>>,
    r: Result<Validacion, ErrorValidacion>,
) -> bool {
    match r {
        Err(ErrorValidacion::MuestraInvalida) => false,
        Err(ErrorValidacion::AlgoritmoNoAplicable(i)) => {
            &&& i < N_FOLD
            &&& !aplicable(algoritmo, entrenamiento_de(datos, particion, i as int))
            &&& forall|j: int|
                0 <= j < i ==> aplicable(
                    algoritmo,
                    #[trigger] entrenamiento_de(datos, particion, j),
                )
        },
        Ok(v) => {
            &&& validacion_coherente(v)
            &&& forall|j: int|
                0 <= j < N_FOLD ==> pliegue_validado(
                    algoritmo,
                    datos,
                    particion,
                    j,
                    #[trigger] v.pliegues@[j],
                )
        },
    }
}

/// The training sample of a fold holds the records of each other fold.
pub proof fn lema_resto_contiene(particion: Seq<Vec<usize>>, i: int, n: nat, j: int)
    requires
        0 <= j < n <= particion.len(),
        j != i,
    ensures
        resto_de(particion, i, n).len() >= particion[j]@.len(),
    decreases n,
{
    if j < n - 1 {
        lema_resto_contiene(particion, i, (n - 1) as nat, j);
    }
}

/// Two records of the sample have the same class.
pub open spec fn clase_repetida(datos: Seq<Dato>) -> bool {
    exists|a: int, b: int|
        0 <= a < datos.len() && 0 <= b < datos.len() && a != b && (#[trigger] datos[a])@.categoria
            == (#[trigger] datos[b])@.categoria
}

/// Where two records have the same class, no fold holds every record,
/// and an algorithm that does not start from the RELIEF weights can run
/// on the training sample of every fold.
pub proof fn lema_pliegues_aplicables(
    algoritmo: Algoritmo,
    datos: Seq<Dato>,
    perm: Seq<usize>,
    particion: Seq<Vec<usize>>,
    i: int,
)
    requires
        validable(datos),
        clase_repetida(datos),
        !requiere_relief(algoritmo),
        TAMANO_GENERACIONAL * num_atributos(datos) <= usize::MAX,
        datos.len() <= usize::MAX,
        es_particion_de(datos, perm, particion),
        0 <= i < N_FOLD,
    ensures
        aplicable(algoritmo, entrenamiento_de(datos, particion, i)),
{
    let (a, b) = choose|a: int, b: int|
        0 <= a < datos.len() && 0 <= b < datos.len() && a != b && (#[trigger] datos[a])@.categoria
            == (#[trigger] datos[b])@.categoria;
    let id = identidad(datos.len());
    assert(id[a] == a as usize && id[b] == b as usize);
    assert(id.contains(a as usize) && id.contains(b as usize));
    id.to_multiset_ensures();
    perm.to_multiset_ensures();
    assert(id.to_multiset().count(a as usize) > 0 && id.to_multiset().count(b as usize) > 0);
    assert(perm.to_multiset().count(a as usize) > 0 && perm.to_multiset().count(b as usize) > 0);
    assert(perm.contains(a as usize) && perm.contains(b as usize));
    let ka = choose|k: int| 0 <= k < perm.len() && perm[k] == a as usize;
    let kb = choose|k: int| 0 <= k < perm.len() && perm[k] == b as usize;
    let c = datos[a]@.categoria as int;
    assert(clase_en(datos, perm, ka) == c && clase_en(datos, perm, kb) == c);
    if ka < kb {
        lema_clase_cuenta(datos, perm, c, ka, kb, perm.len());
    } else {
        lema_clase_cuenta(datos, perm, c, kb, ka, perm.len());
    }
    let total = de_clase(datos, perm, c, perm.len()).len();
    let j = lema_otro_pliegue_toma(total, i as nat);
    let n_clases = num_clases(datos, perm, perm.len());
    lema_num_clases(datos, perm, perm.len());
    assert(0 <= clase_en(datos, perm, ka) < n_clases);
    lema_pliegue_contiene_tramo(datos, perm, N_FOLD as nat, j, n_clases, c);
    assert(particion[j as int]@.len() > 0);
    lema_resto_contiene(particion, i, N_FOLD as nat, j as int);
    let indices = resto_de(particion, i, particion.len());
    lema_resto_valido(particion, i, particion.len(), datos.len());
    let e = entrenamiento_de(datos, particion, i);
    assert(e.len() > 0);
    assert(e[0] == datos[indices[0] as int]);
    assert forall|k: int| 0 <= k < e.len() implies (#[trigger] e[k]@).bien_formado()
        && e[k]@.misma_forma(e[0]@) by {
        assert(e[k] == datos[indices[k] as int]);
        assert(datos[indices[k] as int]@.misma_forma(datos[0]@));
        assert(datos[indices[0] as int]@.misma_forma(datos[0]@));
    }
    assert(datos[indices[0] as int]@.misma_forma(datos[0]@));
}

/// Five-fold cross-validation of an algorithm.  A generator seeded
/// with `seed` shuffles the records; they are split into `N_FOLD`
/// stratified folds; for each fold the algorithm learns weights from the
/// other folds and the weights are measured on the fold.  Returns the
/// measures of the folds and their means.  A sample that cannot be
/// cross-validated is refused before anything is run; the run stops at
/// the first fold on whose training sample the algorithm cannot run.
pub fn ffcv<R: Ruido>(algoritmo: Algoritmo, datos: &[Dato], seed: &[u64], ruido: &R) -> (r: Result<
    Validacion,
    ErrorValidacion,
>)
    ensures
        !validable(datos@) <==> r == Err::<Validacion, ErrorValidacion>(
            ErrorValidacion::MuestraInvalida,
        ),
        r matches Err(ErrorValidacion::AlgoritmoNoAplicable(i)) ==> i < N_FOLD,
        r matches Ok(v) ==> validacion_coherente(v),
        validable(datos@) && clase_repetida(datos@) && !requiere_relief(algoritmo)
            && TAMANO_GENERACIONAL * num_atributos(datos@) <= usize::MAX ==> r is Ok,
        validable(datos@) ==> exists|perm: Seq<usize>, particion: Seq<Vec<usize>>|
            #[trigger] es_particion_de(datos@, perm, particion) && es_validacion_de(
                algoritmo,
                datos@,
                particion,
                r,
            ),
{
    if !es_muestra_valida(datos) || !tiene_clases_no_negativas(datos) {
        return Err(ErrorValidacion::MuestraInvalida);
    }
    let mut rng = generador_desde_semilla(seed);
    let permutacion = permutacion_aleatoria(datos.len(), &mut rng);
    assert(permutacion_valida(datos@, permutacion@)) by {
        assert forall|k: int| 0 <= k < permutacion@.len() implies (#[trigger] permutacion@[k])
            < datos@.len() && clase_en(datos@, permutacion@, k) >= 0 by {
            assert(datos@[permutacion@[k] as int]@.categoria >= 0);
        }
    }
    let particion = particionar(datos, permutacion.as_slice(), N_FOLD);
    assert(es_particion_de(datos@, permutacion@, particion@));
    let mut estadisticos: Vec<Estadisticos> = Vec::new();
    let mut i: usize = 0;
    while i < N_FOLD
        invariant
            i <= N_FOLD,
            validable(datos@),
            datos@.len() <= usize::MAX,
            es_particion_de(datos@, permutacion@, particion@),
            forall|j: int|
                0 <= j < i ==> pliegue_validado(
                    algoritmo,
                    datos@,
                    particion@,
                    j,
                    #[trigger] estadisticos@[j],
                ),
            particion@.len() == N_FOLD,
            forall|j: int, k: int|
                0 <= j < particion@.len() && 0 <= k < particion@[j]@.len() ==> (
                #[trigger] particion@[j]@[k]) < datos@.len(),
            estadisticos@.len() == i,
            forall|j: int|
                0 <= j < i ==> (#[trigger] estadisticos@[j]).agregado == agregado(
                    estadisticos@[j].tasa_clas as nat,
                    estadisticos@[j].tasa_red as nat,
                ),
        decreases N_FOLD - i,
    {
        let ghost previos = estadisticos@;
        match validar_pliegue(algoritmo, datos, &particion, i, &mut rng, ruido) {
            Ok(e) => {
                estadisticos.push(e);
                proof {
                    assert forall|j: int| 0 <= j < i + 1 implies pliegue_validado(
                        algoritmo,
                        datos@,
                        particion@,
                        j,
                        #[trigger] estadisticos@[j],
                    ) by {
                        if j < i {
                            assert(estadisticos@[j] == previos[j]);
                        }
                    }
                }
            },
            Err(error) => {
                assert(error == ErrorValidacion::AlgoritmoNoAplicable(i));
                proof {
                    if clase_repetida(datos@) && !requiere_relief(algoritmo) && TAMANO_GENERACIONAL
                        * num_atributos(datos@) <= usize::MAX {
                        lema_pliegues_aplicables(
                            algoritmo,
                            datos@,
                            permutacion@,
                            particion@,
                            i as int,
                        );
                    }
                    assert forall|j: int| 0 <= j < i implies aplicable(
                        algoritmo,
                        #[trigger] entrenamiento_de(datos@, particion@, j),
                    ) by {
                        assert(pliegue_validado(
                            algoritmo,
                            datos@,
                            particion@,
                            j,
                            estadisticos@[j],
                        ));
                    }
                    assert(es_validacion_de(
                        algoritmo,
                        datos@,
                        particion@,
                        Err::<Validacion, ErrorValidacion>(error),
                    ));
                }
                return Err(error);
            },
        }
        i += 1;
    }
    let medias = medias(estadisticos.as_slice());
    let v = Validacion { pliegues: estadisticos, medias };
    proof {
        assert(es_validacion_de(algoritmo, datos@, particion@, Ok::<Validacion, ErrorValidacion>(v)));
    }
    Ok(v)
}

} // verus!
