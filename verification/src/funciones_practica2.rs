//! Genetic and memetic algorithms.

use vstd::prelude::*;
use rand::Isaac64Rng;
use crate::aleatorio::{
    Ruido, identidad, uniforme, entero_en_rango, permutacion_aleatoria, siguiente_usize,
};
use crate::fijo::{UNO, UMBRAL, a_escala, normalizado, todo_cero, recortar_spec};
use crate::knn::Dato;
use crate::evaluacion_pesos::{
    evaluar, muestra_valida, pesos_validos, puntuacion, num_atributos, lema_muestra_evaluable,
};
use crate::funciones_practica1::{
    Vecino, Inicial, aplicar_vecino, generar_inicial, normalizar, normalizar_spec, lema_normalizar,
    es_resultado_local, es_busqueda, vecino_bl_con, vecino_bl_mut2_con,
    buscar_localmente, orden_natural, afinidad_optima, afinidad_optima_spec, relief_aplicable,
    relief_spec, vecino_spec, lema_vecino_normal,
};
use crate::poblacion::{
    Cromosoma, CromosomaModelo, Individuo, Poblacion, con_id, con_modelo, insertar_en, son_copias,
    lema_insertar_conserva, lema_mejor, lema_palomar, antecede, no_peor_que, lema_primero,
    lema_primero_tras_insertar,
};

verus! {

/// One gene of the BLX crossover with alpha 0.3: the point that the
/// uniform draw `u` marks in the interval between the genes of the
/// parents, widened at each end by three tenths of its length; rounded
/// down and confined to `[0, UNO]`.
pub open spec fn gen_blx_spec(x: u64, y: u64, u: u64) -> int {
    let cmin = if x < y { x } else { y };
    let cmax = if x < y { y } else { x };
    let ai = 3 * (cmax - cmin) / 10;
    let a = cmin - ai;
    let b = cmax + ai;
    recortar_spec(a + (b - a) * u / (UNO as int))
}

/// Computes `gen_blx_spec`.
pub fn gen_blx(x: u64, y: u64, u: u64) -> (v: u64)
    requires
        u < UNO,
    ensures
        v == gen_blx_spec(x, y, u),
        v <= UNO,
{
    let cmin: i128 = if x < y { x as i128 } else { y as i128 };
    let cmax: i128 = if x < y { y as i128 } else { x as i128 };
    let ai: i128 = 3 * (cmax - cmin) / 10;
    let a: i128 = cmin - ai;
    let b: i128 = cmax + ai;
    proof {
        assert(0 <= (b - a) * u <= 0x2_0000_0000_0000_0000 * 1_000_000) by (nonlinear_arith)
            requires
                0 <= b - a <= 0x2_0000_0000_0000_0000,
                0 <= u <= 1_000_000,
        ;
        assert((b - a) * u / (UNO as int) >= 0) by (nonlinear_arith)
            requires
                (b - a) * u >= 0,
                UNO == 1_000_000,
        ;
        assert((b - a) * u / (UNO as int) <= (b - a) * u) by (nonlinear_arith)
            requires
                (b - a) * u >= 0,
                UNO == 1_000_000,
        ;
    }
    let valor: i128 = a + (b - a) * (u as i128) / (UNO as i128);
    if valor < 0 {
        0
    } else if valor > UNO as i128 {
        UNO
    } else {
        valor as u64
    }
}

/// The child of the BLX crossover for the uniform draws `us`, one for each gene.
pub open spec fn hijo_blx_spec(padre_a: Seq<u64>, padre_b: Seq<u64>, us: Seq<u64>) -> Seq<u64> {
    normalizar_spec(
        Seq::new(padre_a.len(), |i: int| gen_blx_spec(padre_a[i], padre_b[i], us[i]) as u64),
    )
}

/// One child of the BLX crossover.  No number is drawn for a gene on
/// which the parents agree.
pub fn hijo_blx(padre1: &[u64], padre2: &[u64], rng: &mut Isaac64Rng) -> (hijo: Vec<u64>)
    requires
        padre1@.len() == padre2@.len(),
    ensures
        hijo@.len() == padre1@.len(),
        normalizado(hijo@) || todo_cero(hijo@),
        exists|us: Seq<u64>|
            us.len() == padre1@.len() && #[trigger] hijo_blx_spec(padre1@, padre2@, us) == hijo@,
{
    let mut hijo: Vec<u64> = Vec::new();
    let ghost mut us: Seq<u64> = Seq::empty();
    let mut i: usize = 0;
    while i < padre1.len()
        invariant
            i <= padre1@.len(),
            padre1@.len() == padre2@.len(),
            hijo@.len() == i,
            us.len() == i,
            forall|j: int|
                0 <= j < i ==> #[trigger] hijo@[j] == gen_blx_spec(padre1@[j], padre2@[j], us[j]),
        decreases padre1@.len() - i,
    {
        let x: u64 = padre1[i];
        let y: u64 = padre2[i];
        let u: u64 = if x == y {
            0
        } else {
            uniforme(rng)
        };
        proof {
            us = us.push(u);
        }
        hijo.push(gen_blx(x, y, u));
        i += 1;
    }
    proof {
        lema_normalizar(hijo@);
        assert(hijo@ =~= Seq::new(
            padre1@.len(),
            |i: int| gen_blx_spec(padre1@[i], padre2@[i], us[i]) as u64,
        ));
    }
    normalizar(&mut hijo);
    assert(hijo_blx_spec(padre1@, padre2@, us) == hijo@);
    hijo
}

/// The BLX crossover with alpha 0.3: two children.
pub fn blx_03(padre1: &[u64], padre2: &[u64], rng: &mut Isaac64Rng) -> (hijos: Vec<Vec<u64>>)
    requires
        padre1@.len() == padre2@.len(),
    ensures
        hijos@.len() == 2,
        forall|k: int|
            0 <= k < 2 ==> {
                &&& (#[trigger] hijos@[k])@.len() == padre1@.len()
                &&& normalizado(hijos@[k]@) || todo_cero(hijos@[k]@)
                &&& exists|us: Seq<u64>|
                    us.len() == padre1@.len() && #[trigger] hijo_blx_spec(padre1@, padre2@, us)
                        == hijos@[k]@
            },
{
    let mut hijos: Vec<Vec<u64>> = Vec::new();
    let h1 = hijo_blx(padre1, padre2, rng);
    hijos.push(h1);
    let h2 = hijo_blx(padre1, padre2, rng);
    hijos.push(h2);
    hijos
}

/// The child of the arithmetic crossover: the mean of the parents gene
/// by gene, rounded down, normalized.
pub open spec fn ca_spec(padre_a: Seq<u64>, padre_b: Seq<u64>) -> Seq<u64> {
    normalizar_spec(Seq::new(padre_a.len(), |i: int| ((padre_a[i] + padre_b[i]) / 2) as u64))
}

/// The arithmetic crossover: one child.
pub fn ca(padre1: &[u64], padre2: &[u64]) -> (hijos: Vec<Vec<u64>>)
    requires
        padre1@.len() == padre2@.len(),
    ensures
        hijos@.len() == 1,
        hijos@[0]@ == ca_spec(padre1@, padre2@),
        hijos@[0]@.len() == padre1@.len(),
        normalizado(hijos@[0]@) || todo_cero(hijos@[0]@),
{
    let mut hijo: Vec<u64> = Vec::new();
    let mut i: usize = 0;
    while i < padre1.len()
        invariant
            i <= padre1@.len(),
            padre1@.len() == padre2@.len(),
            hijo@.len() == i,
            forall|j: int| 0 <= j < i ==> #[trigger] hijo@[j] == (padre1@[j] + padre2@[j]) / 2,
        decreases padre1@.len() - i,
    {
        hijo.push(((padre1[i] as u128 + padre2[i] as u128) / 2) as u64);
        i += 1;
    }
    proof {
        lema_normalizar(hijo@);
        assert(hijo@ =~= Seq::new(padre1@.len(), |i: int| ((padre1@[i] + padre2@[i]) / 2) as u64));
    }
    normalizar(&mut hijo);
    let mut hijos: Vec<Vec<u64>> = Vec::new();
    hijos.push(hijo);
    hijos
}

/// Probability with which the alternative arithmetic crossover keeps a pruned gene: 0.1.
pub const TASA_MINIMO: u64 = 100_000;

/// One gene of the alternative arithmetic crossover: the mean of the
/// genes of the parents; but where one parent prunes the attribute and
/// the mean does not, the lesser gene if the uniform draw `u` falls
/// below a tenth.
pub open spec fn gen_ca_alt_spec(x: u64, y: u64, u: u64) -> u64 {
    let media = ((x + y) / 2) as u64;
    let menor = if x <= y { x } else { y };
    if media >= UMBRAL && menor < UMBRAL && u < TASA_MINIMO {
        menor
    } else {
        media
    }
}

/// The child of the alternative arithmetic crossover for the draws `us`.
pub open spec fn ca_alt_spec(padre_a: Seq<u64>, padre_b: Seq<u64>, us: Seq<u64>) -> Seq<u64> {
    normalizar_spec(Seq::new(padre_a.len(), |i: int| gen_ca_alt_spec(padre_a[i], padre_b[i], us[i])))
}

/// The alternative arithmetic crossover: one child.  A number is drawn
/// only for a gene that one parent prunes and the mean does not.
pub fn ca_alt(padre1: &[u64], padre2: &[u64], rng: &mut Isaac64Rng) -> (hijos: Vec<Vec<u64>>)
    requires
        padre1@.len() == padre2@.len(),
    ensures
        hijos@.len() == 1,
        hijos@[0]@.len() == padre1@.len(),
        normalizado(hijos@[0]@) || todo_cero(hijos@[0]@),
        exists|us: Seq<u64>|
            us.len() == padre1@.len() && #[trigger] ca_alt_spec(padre1@, padre2@, us) == hijos@[0]@,
{
    let mut hijo: Vec<u64> = Vec::new();
    let ghost mut us: Seq<u64> = Seq::empty();
    let mut i: usize = 0;
    while i < padre1.len()
        invariant
            i <= padre1@.len(),
            padre1@.len() == padre2@.len(),
            hijo@.len() == i,
            us.len() == i,
            forall|j: int|
                0 <= j < i ==> #[trigger] hijo@[j] == gen_ca_alt_spec(padre1@[j], padre2@[j], us[j]),
        decreases padre1@.len() - i,
    {
        let x: u64 = padre1[i];
        let y: u64 = padre2[i];
        let media: u64 = ((x as u128 + y as u128) / 2) as u64;
        let menor: u64 = if x <= y { x } else { y };
        let mut valor: u64 = media;
        let mut u: u64 = UNO;
        if media >= UMBRAL && menor < UMBRAL {
            u = uniforme(rng);
            if u < TASA_MINIMO {
                valor = menor;
            }
        }
        proof {
            us = us.push(u);
        }
        hijo.push(valor);
        i += 1;
    }
    proof {
        lema_normalizar(hijo@);
        assert(hijo@ =~= Seq::new(
            padre1@.len(),
            |i: int| gen_ca_alt_spec(padre1@[i], padre2@[i], us[i]),
        ));
    }
    normalizar(&mut hijo);
    assert(ca_alt_spec(padre1@, padre2@, us) == hijo@);
    let mut hijos: Vec<Vec<u64>> = Vec::new();
    hijos.push(hijo);
    hijos
}

/// The crossover operators that the genetic algorithms can be run with.
#[derive(Clone, Copy, Debug, PartialEq, Eq, Structural)]
pub enum Cruce {
    /// `blx_03`.
    Blx03,
    /// `ca`.
    Aritmetico,
    /// `ca_alt`.
    AritmeticoAlt,
}

/// Crosses two parents: one or two children, each a normalized vector
/// of the parents' length.
pub fn cruzar_padres(cruce: Cruce, padre1: &[u64], padre2: &[u64], rng: &mut Isaac64Rng) -> (hijos:
    Vec<Vec<u64>>)
    requires
        padre1@.len() == padre2@.len(),
    ensures
        1 <= hijos@.len() <= 2,
        cruce == Cruce::Blx03 ==> hijos@.len() == 2,
        cruce != Cruce::Blx03 ==> hijos@.len() == 1,
        cruce == Cruce::Aritmetico ==> hijos@[0]@ == ca_spec(padre1@, padre2@),
        forall|k: int|
            0 <= k < hijos@.len() ==> (#[trigger] hijos@[k])@.len() == padre1@.len() && (
            normalizado(hijos@[k]@) || todo_cero(hijos@[k]@)),
{
    match cruce {
        Cruce::Blx03 => blx_03(padre1, padre2, rng),
        Cruce::Aritmetico => ca(padre1, padre2),
        Cruce::AritmeticoAlt => ca_alt(padre1, padre2, rng),
    }
}


/// Size of the population of the generational algorithms.
pub const TAMANO_GENERACIONAL: usize = 30;

/// Size of the population of the steady-state algorithms.
pub const TAMANO_ESTACIONARIO: usize = 30;

/// Probability that a gene mutates: 0.001.
pub const TASA_MUTACION_GEN: u64 = 1000;

/// Evaluations of the objective function that each algorithm may make.
pub const MAX_EVALUACIONES: usize = 15000;

/// A number of passes that no local search reaches: only the evaluations stop it.
pub const MAX_CICLOS_BL: usize = 100000000;

/// Probability with which a memetic operator picks an individual: 0.1.
pub const TASA_MEMETICA: u64 = 100_000;

/// `a + b`, or the largest `usize` where the sum does not fit.
pub fn sumar(a: usize, b: usize) -> (r: usize)
    ensures
        r == (if a + b <= usize::MAX { a + b } else { usize::MAX as int }),
        r >= a,
        r >= b,
{
    if a <= usize::MAX - b {
        a + b
    } else {
        usize::MAX
    }
}

/// The individuals that a memetic operator refines.
#[derive(Clone, Copy, Debug, PartialEq, Eq, Structural)]
pub enum Seleccion {
    /// All of them.
    Todos,
    /// Each one with probability a tenth.
    Azar,
    /// The given number of the best.
    Mejores(usize),
}

/// Number of components that are neither zero nor `UNO` among the first `n`.
pub open spec fn intermedios(w: Seq<u64>, n: nat) -> nat
    decreases n,
{
    if n == 0 {
        0
    } else {
        intermedios(w, (n - 1) as nat) + (if w[n - 1] != 0 && w[n - 1] != UNO {
            1nat
        } else {
            0nat
        })
    }
}

/// Counts the components that are neither zero nor `UNO`.
pub fn contar_intermedios(w: &[u64]) -> (n: usize)
    ensures
        n == intermedios(w@, w@.len()),
{
    let mut n: usize = 0;
    let mut i: usize = 0;
    while i < w.len()
        invariant
            i <= w@.len(),
            n == intermedios(w@, i as nat),
            n <= i,
        decreases w@.len() - i,
    {
        if w[i] != 0 && w[i] != UNO {
            n += 1;
        }
        i += 1;
    }
    n
}

/// `x`, or the largest `usize` where `x` does not fit.
pub open spec fn saturado(x: nat) -> nat {
    if x <= usize::MAX {
        x
    } else {
        usize::MAX as nat
    }
}

/// The evaluations charged for refining one individual: for a local
/// search one more than twice the number of attributes, for an affine
/// rescaling one more than the vector has components strictly between
/// zero and `UNO`.
pub open spec fn cargo_de(pesos: Seq<u64>, por_afinidad: bool, n_atributos: nat) -> nat {
    if por_afinidad {
        1 + intermedios(pesos, pesos.len())
    } else {
        1 + 2 * n_atributos
    }
}

/// The evaluations charged for refining, among the first `n`
/// individuals, those that `elegidos` marks.
pub open spec fn cargo_total(
    antes: Seq<Cromosoma>,
    elegidos: Seq<bool>,
    por_afinidad: bool,
    n_atributos: nat,
    n: nat,
) -> nat
    decreases n,
{
    if n == 0 {
        0
    } else {
        cargo_total(antes, elegidos, por_afinidad, n_atributos, (n - 1) as nat) + (if elegidos[n
            - 1] {
            cargo_de(antes[n - 1].pesos@, por_afinidad, n_atributos)
        } else {
            0
        })
    }
}

/// The charge for the first `n` individuals depends on the first `n` marks alone.
proof fn lema_cargo_prefijo(
    antes: Seq<Cromosoma>,
    e1: Seq<bool>,
    e2: Seq<bool>,
    por_afinidad: bool,
    n_atributos: nat,
    n: nat,
)
    requires
        forall|j: int| 0 <= j < n ==> e1[j] == e2[j],
    ensures
        cargo_total(antes, e1, por_afinidad, n_atributos, n) == cargo_total(
            antes,
            e2,
            por_afinidad,
            n_atributos,
            n,
        ),
    decreases n,
{
    if n > 0 {
        lema_cargo_prefijo(antes, e1, e2, por_afinidad, n_atributos, (n - 1) as nat);
    }
}

/// The individual `m` after the best affine rescaling of its weights:
/// it keeps its identifier and carries the score of its new weights.
pub open spec fn afinado(e: Seq<Dato>, m: CromosomaModelo) -> CromosomaModelo {
    CromosomaModelo {
        aptitud: puntuacion(e, afinidad_optima_spec(e, m.pesos)) as u64,
        id: m.id,
        pesos: afinidad_optima_spec(e, m.pesos),
    }
}

/// The individual `m` may be what a local search of the memetic
/// operators makes of `a`: it keeps the identifier, its weights are
/// what a local search from those of `a` may return, with the default
/// operator, in the order of the attributes, with twice as many
/// evaluations as there are attributes, and it carries their score.
pub open spec fn buscado(e: Seq<Dato>, a: CromosomaModelo, m: CromosomaModelo) -> bool {
    &&& m.id == a.id
    &&& m.aptitud == puntuacion(e, m.pesos)
    &&& es_resultado_local(
        e,
        a.pesos,
        Vecino::Bl,
        false,
        saturado(2 * num_atributos(e)) as int,
        MAX_CICLOS_BL as int,
        m.pesos,
    )
}

/// What a memetic operator does to the population `antes`, and what it
/// charges.  It refines some individuals: all of them, or the best
/// ones, or some that chance picked.  `cuenta` is the charge for those.
/// The others are in `despues` as they were.  Where the refinement is
/// the best affine rescaling, the refined ones are in `despues` with
/// the weights and the score that the rescaling gives them.
pub open spec fn refinamiento_de(
    antes: Poblacion,
    despues: Poblacion,
    seleccion: Seleccion,
    por_afinidad: bool,
    e: Seq<Dato>,
    cuenta: usize,
) -> bool {
    exists|elegidos: Seq<bool>|
        {
            &&& elegidos.len() == antes.individuos@.len()
            &&& cuenta == saturado(
                #[trigger] cargo_total(
                    antes.individuos@,
                    elegidos,
                    por_afinidad,
                    num_atributos(e),
                    antes.individuos@.len(),
                ),
            )
            &&& seleccion == Seleccion::Todos ==> forall|i: int|
                0 <= i < elegidos.len() ==> #[trigger] elegidos[i]
            &&& seleccion matches Seleccion::Mejores(m) ==> forall|i: int|
                0 <= i < elegidos.len() ==> #[trigger] elegidos[i] == (i < m)
            &&& forall|j: int|
                0 <= j < elegidos.len() && !(#[trigger] elegidos[j]) ==> con_modelo(
                    despues@,
                    antes@[j],
                )
            &&& forall|j: int|
                0 <= j < elegidos.len() && por_afinidad && #[trigger] elegidos[j] ==> con_modelo(
                    despues@,
                    afinado(e, antes@[j]),
                )
            &&& forall|j: int|
                0 <= j < elegidos.len() && !por_afinidad && #[trigger] elegidos[j] ==> exists|
                    m: CromosomaModelo,
                |
                    con_modelo(despues@, m) && #[trigger] buscado(e, antes@[j], m)
        }
}

/// What a memetic operator leaves of the population `antes`: the same
/// individuals by identifier, none with a lower score, ranked again.
pub open spec fn refinada(antes: Poblacion, despues: Poblacion, e: Seq<Dato>) -> bool {
    &&& despues.bien_formada(e)
    &&& despues.individuos@.len() == antes.individuos@.len()
    &&& forall|id: usize| antes.contiene_id(id) <==> despues.contiene_id(id)
    &&& forall|j: int|
        0 <= j < antes.individuos@.len() ==> despues.contiene_con(
            (#[trigger] antes.individuos@[j]).id,
            antes.individuos@[j].aptitud,
        )
    &&& forall|cota: usize| antes.ids_hasta(cota) ==> #[trigger] despues.ids_hasta(cota)
    &&& despues.mejor_aptitud() >= antes.mejor_aptitud()
}

/// Refines the selected individuals of a population, each keeping its
/// identifier, and ranks them again.  The refinement is a local search
/// of twice as many evaluations as there are attributes, or, if
/// `por_afinidad`, the best affine rescaling.  Returns the evaluations
/// to be charged: for a local search one more than its budget, for a
/// rescaling one more than the vector has components strictly between
/// zero and `UNO`.
pub fn refinar_poblacion<R: Ruido>(
    entrenamiento: &[Dato],
    cromosomas: &mut Poblacion,
    seleccion: Seleccion,
    por_afinidad: bool,
    rng: &mut Isaac64Rng,
    ruido: &R,
) -> (cuenta: usize)
    requires
        muestra_valida(entrenamiento@),
        old(cromosomas).bien_formada(entrenamiento@),
    ensures
        refinada(*old(cromosomas), *final(cromosomas), entrenamiento@),
        refinamiento_de(
            *old(cromosomas),
            *final(cromosomas),
            seleccion,
            por_afinidad,
            entrenamiento@,
            cuenta,
        ),
{
    let ghost e = entrenamiento@;
    let ghost antes = *cromosomas;
    let n_atributos: usize = entrenamiento[0].num_atributos();
    let max_evaluaciones: usize = sumar(n_atributos, n_atributos);
    let orden = orden_natural(n_atributos);
    let mut nueva = Poblacion::new();
    let mut cuenta: usize = 0;
    let ghost mut elegidos: Seq<bool> = Seq::empty();
    let mut i: usize = 0;
    let miembros = cromosomas.en_orden();
    while i < miembros.len()
        invariant
            i <= antes.individuos@.len(),
            son_copias(miembros@, antes.individuos@),
            max_evaluaciones == saturado(2 * n_atributos as nat),
            elegidos.len() == i,
            cuenta == saturado(
                cargo_total(antes.individuos@, elegidos, por_afinidad, n_atributos as nat, i as nat),
            ),
            seleccion == Seleccion::Todos ==> forall|j: int| 0 <= j < i ==> #[trigger] elegidos[j],
            seleccion matches Seleccion::Mejores(m) ==> forall|j: int|
                0 <= j < i ==> #[trigger] elegidos[j] == (j < m),
            forall|j: int| 0 <= j < i && !(#[trigger] elegidos[j]) ==> con_modelo(nueva@, antes@[j]),
            forall|j: int|
                0 <= j < i && por_afinidad && #[trigger] elegidos[j] ==> con_modelo(
                    nueva@,
                    afinado(e, antes@[j]),
                ),
            forall|j: int|
                0 <= j < i && !por_afinidad && #[trigger] elegidos[j] ==> exists|
                    m: CromosomaModelo,
                |
                    con_modelo(nueva@, m) && #[trigger] buscado(e, antes@[j], m),
            *cromosomas == antes,
            e == entrenamiento@,
            muestra_valida(e),
            antes.bien_formada(e),
            n_atributos == num_atributos(e),
            orden@.len() == n_atributos,
            forall|k: int| 0 <= k < n_atributos ==> #[trigger] orden@[k] == k,
            nueva.bien_formada(e),
            nueva.individuos@.len() == i,
            forall|id: usize|
                nueva.contiene_id(id) <==> exists|j: int|
                    0 <= j < i && (#[trigger] antes.individuos@[j]).id == id,
            forall|j: int|
                0 <= j < i ==> nueva.contiene_con(
                    (#[trigger] antes.individuos@[j]).id,
                    antes.individuos@[j].aptitud,
                ),
            forall|cota: usize| antes.ids_hasta(cota) ==> #[trigger] nueva.ids_hasta(cota),
        decreases antes.individuos@.len() - i,
    {
        let cr = &miembros[i];
        assert(cr@ == antes.individuos@[i as int]@);
        let elegido: bool = match seleccion {
            Seleccion::Todos => true,
            Seleccion::Azar => uniforme(rng) < TASA_MEMETICA,
            Seleccion::Mejores(m) => i < m,
        };
        proof {
            let previos = elegidos;
            elegidos = elegidos.push(elegido);
            lema_cargo_prefijo(
                antes.individuos@,
                previos,
                elegidos,
                por_afinidad,
                n_atributos as nat,
                i as nat,
            );
        }
        let c: Cromosoma = if elegido {
            if por_afinidad {
                let w = afinidad_optima(entrenamiento, cr.pesos.as_slice());
                proof {
                    lema_muestra_evaluable(e, w@);
                }
                let a: u64 = evaluar(entrenamiento, w.as_slice());
                cuenta = sumar(cuenta, sumar(1, contar_intermedios(cr.pesos.as_slice())));
                Cromosoma { aptitud: a, id: cr.id, pesos: w }
            } else {
                let estado = buscar_localmente(
                    entrenamiento,
                    cr.pesos.as_slice(),
                    Vecino::Bl,
                    orden.as_slice(),
                    max_evaluaciones,
                    MAX_CICLOS_BL,
                    rng,
                    ruido,
                );
                cuenta = sumar(cuenta, sumar(1, max_evaluaciones));
                proof {
                    assert(orden@ =~= identidad(num_atributos(e)));
                    let fin = choose|fin: bool|
                        es_busqueda(
                            e,
                            cr.pesos@,
                            Vecino::Bl,
                            orden@,
                            max_evaluaciones as int,
                            MAX_CICLOS_BL as int,
                            #[trigger] estado.modelo(fin),
                        );
                    assert(estado.modelo(fin).w == estado.w@);
                    assert(es_resultado_local(
                        e,
                        cr.pesos@,
                        Vecino::Bl,
                        false,
                        max_evaluaciones as int,
                        MAX_CICLOS_BL as int,
                        estado.w@,
                    ));
                }
                Cromosoma { aptitud: estado.fw, id: cr.id, pesos: estado.w }
            }
        } else {
            cr.clonar()
        };
        proof {
            assert(c.id == antes.individuos@[i as int].id);
            assert(c.aptitud >= antes.individuos@[i as int].aptitud);
            if nueva.contiene_id(c.id) {
                let j = choose|j: int| 0 <= j < i && (#[trigger] antes.individuos@[j]).id == c.id;
                assert(false);
            }
        }
        let ghost previa = nueva;
        proof {
            assert(antes@[i as int] == antes.individuos@[i as int]@);
            if !elegido {
                assert(c@ == antes@[i as int]);
            } else if por_afinidad {
                assert(c@ == afinado(e, antes@[i as int]));
            } else {
                assert(buscado(e, antes@[i as int], c@));
            }
            lema_insertar_conserva(previa@, c@);
        }
        let ghost entra = c@;
        nueva.insertar(c);
        proof {
            assert forall|j: int|
                0 <= j < i + 1 && !por_afinidad && #[trigger] elegidos[j] implies exists|
                m: CromosomaModelo,
            |
                con_modelo(nueva@, m) && #[trigger] buscado(e, antes@[j], m) by {
                if j < i {
                    let m = choose|m: CromosomaModelo|
                        con_modelo(previa@, m) && #[trigger] buscado(e, antes@[j], m);
                    assert(con_modelo(nueva@, m) && buscado(e, antes@[j], m));
                } else {
                    assert(con_modelo(nueva@, entra) && buscado(e, antes@[j], entra));
                }
            }
            assert forall|id: usize| nueva.contiene_id(id) implies exists|j: int|
                0 <= j < i + 1 && (#[trigger] antes.individuos@[j]).id == id by {
                if id != c.id {
                    assert(previa.contiene_id(id));
                }
            }
            assert forall|id: usize|
                (exists|j: int| 0 <= j < i + 1 && (#[trigger] antes.individuos@[j]).id == id)
                implies nueva.contiene_id(id) by {
                let j = choose|j: int| 0 <= j < i + 1 && (#[trigger] antes.individuos@[j]).id == id;
                if j < i {
                    assert(previa.contiene_id(id));
                }
            }
            assert forall|j: int| 0 <= j < i + 1 implies nueva.contiene_con(
                (#[trigger] antes.individuos@[j]).id,
                antes.individuos@[j].aptitud,
            ) by {
                if j < i {
                    assert(previa.contiene_con(antes.individuos@[j].id, antes.individuos@[j].aptitud));
                } else {
                    assert(nueva.contiene_con(c.id, c.aptitud));
                    let k = choose|k: int|
                        0 <= k < nueva.individuos@.len() && (#[trigger] nueva.individuos@[k]).id
                            == c.id && nueva.individuos@[k].aptitud >= c.aptitud;
                    assert(nueva.individuos@[k].aptitud >= antes.individuos@[j].aptitud);
                }
            }
            assert forall|cota: usize| antes.ids_hasta(cota) implies #[trigger] nueva.ids_hasta(
                cota,
            ) by {
                assert(previa.ids_hasta(cota));
                assert(antes.individuos@[i as int].id <= cota);
            }
        }
        i += 1;
    }
    proof {
        if antes.individuos@.len() > 0 {
            lema_mejor(nueva, antes.individuos@[0].id, antes.individuos@[0].aptitud);
        }
        assert forall|id: usize| antes.contiene_id(id) <==> nueva.contiene_id(id) by {
            if antes.contiene_id(id) {
                let j = choose|j: int|
                    0 <= j < antes.individuos@.len() && (#[trigger] antes.individuos@[j]).id == id;
                assert(nueva.contiene_id(id));
            }
        }
    }
    *cromosomas = nueva;
    assert(cuenta == saturado(
        cargo_total(
            antes.individuos@,
            elegidos,
            por_afinidad,
            num_atributos(e),
            antes.individuos@.len(),
        ),
    ));
    cuenta
}

/// The memetic operators.
#[derive(Clone, Copy, Debug, PartialEq, Eq, Structural)]
pub enum OperadorMemetico {
    /// `nada`.
    Nada,
    /// `bl_todos`.
    BlTodos,
    /// `bl_01`.
    Bl01,
    /// `bl_01mej`.
    Bl01Mej,
    /// `af_01`.
    Af01,
}

/// The memetic operator that does nothing and charges nothing: with it
/// the memetic algorithm is the plain genetic one.
pub fn nada(cromosomas: &mut Poblacion) -> (cuenta: usize)
    ensures
        cuenta == 0,
        *final(cromosomas) == *old(cromosomas),
{
    0
}

/// Local search on every individual.
pub fn bl_todos<R: Ruido>(
    entrenamiento: &[Dato],
    cromosomas: &mut Poblacion,
    rng: &mut Isaac64Rng,
    ruido: &R,
) -> (cuenta: usize)
    requires
        muestra_valida(entrenamiento@),
        old(cromosomas).bien_formada(entrenamiento@),
    ensures
        refinada(*old(cromosomas), *final(cromosomas), entrenamiento@),
        refinamiento_de(
            *old(cromosomas),
            *final(cromosomas),
            Seleccion::Todos,
            false,
            entrenamiento@,
            cuenta,
        ),
{
    refinar_poblacion(entrenamiento, cromosomas, Seleccion::Todos, false, rng, ruido)
}

/// Local search on each individual with probability a tenth.
pub fn bl_01<R: Ruido>(
    entrenamiento: &[Dato],
    cromosomas: &mut Poblacion,
    rng: &mut Isaac64Rng,
    ruido: &R,
) -> (cuenta: usize)
    requires
        muestra_valida(entrenamiento@),
        old(cromosomas).bien_formada(entrenamiento@),
    ensures
        refinada(*old(cromosomas), *final(cromosomas), entrenamiento@),
        refinamiento_de(
            *old(cromosomas),
            *final(cromosomas),
            Seleccion::Azar,
            false,
            entrenamiento@,
            cuenta,
        ),
{
    refinar_poblacion(entrenamiento, cromosomas, Seleccion::Azar, false, rng, ruido)
}

/// A tenth of `n`, rounded.
pub open spec fn num_sacudidos(n: nat) -> nat {
    n / 10 + (if n % 10 >= 5 {
        1nat
    } else {
        0nat
    })
}

/// Local search on the best tenth of the individuals.
pub fn bl_01mej<R: Ruido>(
    entrenamiento: &[Dato],
    cromosomas: &mut Poblacion,
    rng: &mut Isaac64Rng,
    ruido: &R,
) -> (cuenta: usize)
    requires
        muestra_valida(entrenamiento@),
        old(cromosomas).bien_formada(entrenamiento@),
    ensures
        refinada(*old(cromosomas), *final(cromosomas), entrenamiento@),
        refinamiento_de(
            *old(cromosomas),
            *final(cromosomas),
            Seleccion::Mejores(num_sacudidos(old(cromosomas).individuos@.len()) as usize),
            false,
            entrenamiento@,
            cuenta,
        ),
{
    let n: usize = cromosomas.len();
    let num_cromosomas: usize = n / 10 + if n % 10 >= 5 {
        1
    } else {
        0
    };
    refinar_poblacion(
        entrenamiento,
        cromosomas,
        Seleccion::Mejores(num_cromosomas),
        false,
        rng,
        ruido,
    )
}

/// The best affine rescaling on each individual with probability a tenth.
pub fn af_01<R: Ruido>(
    entrenamiento: &[Dato],
    cromosomas: &mut Poblacion,
    rng: &mut Isaac64Rng,
    ruido: &R,
) -> (cuenta: usize)
    requires
        muestra_valida(entrenamiento@),
        old(cromosomas).bien_formada(entrenamiento@),
    ensures
        refinada(*old(cromosomas), *final(cromosomas), entrenamiento@),
        refinamiento_de(
            *old(cromosomas),
            *final(cromosomas),
            Seleccion::Azar,
            true,
            entrenamiento@,
            cuenta,
        ),
{
    refinar_poblacion(entrenamiento, cromosomas, Seleccion::Azar, true, rng, ruido)
}

/// The individuals that a memetic operator refines in a population of `n`.
pub open spec fn seleccion_del_operador(operador: OperadorMemetico, n: nat) -> Seleccion {
    match operador {
        OperadorMemetico::Nada => Seleccion::Mejores(0),
        OperadorMemetico::BlTodos => Seleccion::Todos,
        OperadorMemetico::Bl01 => Seleccion::Azar,
        OperadorMemetico::Bl01Mej => Seleccion::Mejores(num_sacudidos(n) as usize),
        OperadorMemetico::Af01 => Seleccion::Azar,
    }
}

/// Whether a memetic operator refines by the best affine rescaling
/// rather than by a local search.
pub open spec fn refina_por_afinidad(operador: OperadorMemetico) -> bool {
    operador == OperadorMemetico::Af01
}

/// Applies a memetic operator: the population is refined as the
/// operator has it, and the evaluations that this costs are returned.
pub fn aplicar_memetico<R: Ruido>(
    operador: OperadorMemetico,
    entrenamiento: &[Dato],
    cromosomas: &mut Poblacion,
    rng: &mut Isaac64Rng,
    ruido: &R,
) -> (cuenta: usize)
    requires
        muestra_valida(entrenamiento@),
        old(cromosomas).bien_formada(entrenamiento@),
    ensures
        refinada(*old(cromosomas), *final(cromosomas), entrenamiento@),
        operador == OperadorMemetico::Nada ==> cuenta == 0 && *final(cromosomas) == *old(cromosomas),
        operador != OperadorMemetico::Nada ==> refinamiento_de(
            *old(cromosomas),
            *final(cromosomas),
            seleccion_del_operador(operador, old(cromosomas).individuos@.len()),
            refina_por_afinidad(operador),
            entrenamiento@,
            cuenta,
        ),
{
    match operador {
        OperadorMemetico::Nada => {
            proof {
                let p = *cromosomas;
                assert forall|j: int| 0 <= j < p.individuos@.len() implies p.contiene_con(
                    (#[trigger] p.individuos@[j]).id,
                    p.individuos@[j].aptitud,
                ) by {}
            }
            nada(cromosomas)
        },
        OperadorMemetico::BlTodos => bl_todos(entrenamiento, cromosomas, rng, ruido),
        OperadorMemetico::Bl01 => bl_01(entrenamiento, cromosomas, rng, ruido),
        OperadorMemetico::Bl01Mej => bl_01mej(entrenamiento, cromosomas, rng, ruido),
        OperadorMemetico::Af01 => af_01(entrenamiento, cromosomas, rng, ruido),
    }
}


/// A member of the next generation before it is ranked: a weight vector
/// and, if it is an unchanged member of the current population, its
/// score and identifier.
pub struct Candidato {
    pub clave: Option<(u64, usize)>,
    pub pesos: Vec<u64>,
}

/// What a candidate holds, as mathematical values.
pub ghost struct CandidatoModelo {
    pub clave: Option<(u64, usize)>,
    pub pesos: Seq<u64>,
}

impl View for Candidato {
    type V = CandidatoModelo;

    open spec fn view(&self) -> CandidatoModelo {
        CandidatoModelo { clave: self.clave, pesos: self.pesos@ }
    }
}

/// What the candidates hold, one by one.
pub open spec fn vistas(cs: Seq<Candidato>) -> Seq<CandidatoModelo> {
    Seq::new(cs.len(), |k: int| cs[k]@)
}

/// A candidate with a key is a member of `poblacion` under that key; one
/// without is a weight vector for `e`.
pub open spec fn candidato_valido(c: Candidato, poblacion: Poblacion, e: Seq<Dato>) -> bool {
    match c.clave {
        Some(clave) => exists|j: int|
            0 <= j < poblacion.individuos@.len() && (#[trigger] poblacion.individuos@[j]).id
                == clave.1 && poblacion.individuos@[j].aptitud == clave.0
                && poblacion.individuos@[j].pesos@ == c.pesos@,
        None => pesos_validos(e, c.pesos@),
    }
}

/// Every candidate is valid.
pub open spec fn candidatos_validos(cs: Seq<Candidato>, poblacion: Poblacion, e: Seq<Dato>) -> bool {
    forall|k: int| 0 <= k < cs.len() ==> candidato_valido(#[trigger] cs[k], poblacion, e)
}

/// Number of groups of four that are crossed in a population of `tam`:
/// seven fortieths of it, rounded, so that crossover fills about 70% of
/// the next generation.
pub open spec fn grupos_de_cruce_spec(tam: nat) -> nat {
    (7 * tam + 20) / 40
}

/// Computes `grupos_de_cruce_spec`.
pub fn grupos_de_cruce(tam: usize) -> (n: usize)
    ensures
        n == grupos_de_cruce_spec(tam as nat),
        tam >= 4 ==> 1 <= n && 4 * n <= tam,
{
    ((7 * (tam as u128) + 20) / 40) as usize
}

/// What the candidates hold when one more is added at the end.
proof fn lema_vistas_push(cs: Seq<Candidato>, c: Candidato)
    ensures
        vistas(cs.push(c)) == vistas(cs).push(c@),
{
    assert(vistas(cs.push(c)) =~= vistas(cs).push(c@));
}

/// The candidate that the member at position `j` makes if it goes on unchanged.
pub open spec fn superviviente_de(p: Seq<CromosomaModelo>, j: int) -> CandidatoModelo {
    CandidatoModelo { clave: Some((p[j].aptitud, p[j].id)), pesos: p[j].pesos }
}

/// The member `j` of the population as a candidate that keeps its key.
fn superviviente(
    poblacion: &Poblacion,
    miembros: &Vec<Cromosoma>,
    j: usize,
    Ghost(e): Ghost<Seq<Dato>>,
) -> (c: Candidato)
    requires
        j < poblacion.individuos@.len(),
        son_copias(miembros@, poblacion.individuos@),
    ensures
        candidato_valido(c, *poblacion, e),
        c@ == superviviente_de(poblacion@, j as int),
{
    let x = &miembros[j];
    assert(x@ == poblacion.individuos@[j as int]@);
    let pesos = x.pesos.clone();
    assert(pesos@ == x.pesos@);
    Candidato { clave: Some((x.aptitud, x.id)), pesos }
}

/// The lesser of two positions: in a ranked population, the better of two members.
pub open spec fn menor(a: usize, b: usize) -> usize {
    if a <= b {
        a
    } else {
        b
    }
}

/// The first parent that group `t` of a shuffled list of positions gives.
pub open spec fn padre_uno(emp: Seq<usize>, t: int) -> usize {
    menor(emp[4 * t], emp[4 * t + 1])
}

/// The second parent that group `t` of a shuffled list of positions gives.
pub open spec fn padre_dos(emp: Seq<usize>, t: int) -> usize {
    menor(emp[4 * t + 2], emp[4 * t + 3])
}

/// The parents that group `t` of a shuffled list of positions gives:
/// the better of its first two members and the better of its last two.
pub fn padres_del_grupo(emparejamientos: &[usize], t: usize) -> (padres: (usize, usize))
    requires
        4 * t + 3 < emparejamientos@.len(),
    ensures
        padres.0 == padre_uno(emparejamientos@, t as int),
        padres.1 == padre_dos(emparejamientos@, t as int),
{
    let n: usize = emparejamientos.len();
    assert(4 * t + 3 < n);
    let pos: usize = 4 * t;
    let a = emparejamientos[pos];
    let b = emparejamientos[pos + 1];
    let c = emparejamientos[pos + 2];
    let d = emparejamientos[pos + 3];
    (if a <= b { a } else { b }, if c <= d { c } else { d })
}

/// What a crossover may give for two parents: one or two normalized
/// children of their length, as the operator has it, and for the
/// arithmetic crossover the one child that it determines.
pub open spec fn hijos_posibles(
    cruce: Cruce,
    padre_a: Seq<u64>,
    padre_b: Seq<u64>,
    hs: Seq<Seq<u64>>,
) -> bool {
    &&& 1 <= hs.len() <= 2
    &&& cruce == Cruce::Blx03 ==> hs.len() == 2
    &&& cruce != Cruce::Blx03 ==> hs.len() == 1
    &&& cruce == Cruce::Aritmetico ==> hs[0] == ca_spec(padre_a, padre_b)
    &&& forall|k: int|
        0 <= k < hs.len() ==> (#[trigger] hs[k]).len() == padre_a.len() && (normalizado(hs[k])
            || todo_cero(hs[k]))
}

/// Children as candidates: they have no key.
pub open spec fn como_candidatos(hs: Seq<Seq<u64>>) -> Seq<CandidatoModelo> {
    Seq::new(hs.len(), |h: int| CandidatoModelo { clave: None, pesos: hs[h] })
}

/// The candidates that group `t` gives: the children of its parents,
/// and the second parent too where there is one child only.
pub open spec fn aporte_grupo(
    p: Seq<CromosomaModelo>,
    emp: Seq<usize>,
    hs: Seq<Seq<u64>>,
    t: int,
) -> Seq<CandidatoModelo> {
    if hs.len() == 1 {
        como_candidatos(hs).push(superviviente_de(p, padre_dos(emp, t) as int))
    } else {
        como_candidatos(hs)
    }
}

/// The candidates that the first `n` groups give.
pub open spec fn cruzados(
    p: Seq<CromosomaModelo>,
    emp: Seq<usize>,
    hijos: Seq<Seq<Seq<u64>>>,
    n: nat,
) -> Seq<CandidatoModelo>
    decreases n,
{
    if n == 0 {
        Seq::empty()
    } else {
        cruzados(p, emp, hijos, (n - 1) as nat) + aporte_grupo(p, emp, hijos[n - 1], n - 1)
    }
}

/// The winner of the pair that starts at `pos`: the better of the two,
/// or the one member that is left at the end of the list.
pub open spec fn ganador_de_pareja(emp: Seq<usize>, pos: int) -> usize {
    if pos + 1 < emp.len() {
        menor(emp[pos], emp[pos + 1])
    } else {
        emp[pos]
    }
}

/// The candidates that the first `k` pairs from position `desde` on give.
pub open spec fn emparejados(
    p: Seq<CromosomaModelo>,
    emp: Seq<usize>,
    desde: int,
    k: nat,
) -> Seq<CandidatoModelo>
    decreases k,
{
    if k == 0 {
        Seq::empty()
    } else {
        emparejados(p, emp, desde, (k - 1) as nat).push(
            superviviente_de(p, ganador_de_pareja(emp, desde + 2 * (k - 1)) as int),
        )
    }
}

/// The candidates that one pass over a shuffled population gives: those
/// of its `n_grupos` groups of four, and then the winners of the pairs
/// of the members that are left.
pub open spec fn de_pasada(
    p: Seq<CromosomaModelo>,
    emp: Seq<usize>,
    hijos: Seq<Seq<Seq<u64>>>,
    n_grupos: nat,
) -> Seq<CandidatoModelo> {
    cruzados(p, emp, hijos, n_grupos) + emparejados(
        p,
        emp,
        4 * n_grupos as int,
        ((emp.len() - 4 * n_grupos + 1) / 2) as nat,
    )
}

/// `r` is what a pass over the population in the order `emp` gives for
/// some outcome of the crossovers.
pub open spec fn es_pasada(
    p: Seq<CromosomaModelo>,
    emp: Seq<usize>,
    cruce: Cruce,
    n_grupos: nat,
    r: Seq<CandidatoModelo>,
) -> bool {
    exists|hijos: Seq<Seq<Seq<u64>>>|
        {
            &&& hijos.len() == n_grupos
            &&& r == #[trigger] de_pasada(p, emp, hijos, n_grupos)
            &&& forall|t: int|
                0 <= t < n_grupos ==> hijos_posibles(
                    cruce,
                    p[padre_uno(emp, t) as int].pesos,
                    p[padre_dos(emp, t) as int].pesos,
                    #[trigger] hijos[t],
                )
        }
}

/// The candidates of the first `n` groups depend on their children alone.
proof fn lema_cruzados_prefijo(
    p: Seq<CromosomaModelo>,
    emp: Seq<usize>,
    h1: Seq<Seq<Seq<u64>>>,
    h2: Seq<Seq<Seq<u64>>>,
    n: nat,
)
    requires
        forall|t: int| 0 <= t < n ==> h1[t] == h2[t],
    ensures
        cruzados(p, emp, h1, n) == cruzados(p, emp, h2, n),
    decreases n,
{
    if n > 0 {
        lema_cruzados_prefijo(p, emp, h1, h2, (n - 1) as nat);
    }
}

/// One pass of selection and crossover over the population in the
/// order `emparejamientos`.  The members are taken in groups of four;
/// the better of the first two is crossed with the better of the second
/// two, and the children become candidates (with the second parent,
/// where the crossover gives one child).  When `grupos_de_cruce` groups
/// have been crossed, the members that are left are taken in pairs, and
/// the better of each pair becomes a candidate.
pub fn pasada(
    entrenamiento: &[Dato],
    poblacion: &Poblacion,
    emparejamientos: &[usize],
    cruce: Cruce,
    rng: &mut Isaac64Rng,
) -> (ronda: Vec<Candidato>)
    requires
        muestra_valida(entrenamiento@),
        poblacion.bien_formada(entrenamiento@),
        poblacion.individuos@.len() >= 4,
        emparejamientos@.len() == poblacion.individuos@.len(),
        forall|k: int|
            0 <= k < emparejamientos@.len() ==> #[trigger] emparejamientos@[k]
                < poblacion.individuos@.len(),
    ensures
        candidatos_validos(ronda@, *poblacion, entrenamiento@),
        ronda@.len() >= 1,
        ronda@[0].clave is None,
        es_pasada(
            poblacion@,
            emparejamientos@,
            cruce,
            grupos_de_cruce_spec(poblacion.individuos@.len()),
            vistas(ronda@),
        ),
{
    let ghost e = entrenamiento@;
    let ghost p = poblacion@;
    let ghost emp = emparejamientos@;
    let tam: usize = poblacion.len();
    let miembros = poblacion.en_orden();
    let n_grupos: usize = grupos_de_cruce(tam);
    let mut ronda: Vec<Candidato> = Vec::new();
    let ghost mut hijos_g: Seq<Seq<Seq<u64>>> = Seq::empty();
    let mut t: usize = 0;
    while t < n_grupos
        invariant
            son_copias(miembros@, poblacion.individuos@),
            e == entrenamiento@,
            p == poblacion@,
            emp == emparejamientos@,
            muestra_valida(e),
            poblacion.bien_formada(e),
            tam == poblacion.individuos@.len(),
            emp.len() == tam,
            forall|k: int| 0 <= k < tam ==> #[trigger] emp[k] < tam,
            1 <= n_grupos,
            4 * n_grupos <= tam,
            t <= n_grupos,
            hijos_g.len() == t,
            t > 0 ==> ronda@.len() >= 1 && ronda@[0].clave is None,
            candidatos_validos(ronda@, *poblacion, e),
            vistas(ronda@) == cruzados(p, emp, hijos_g, t as nat),
            forall|u: int|
                0 <= u < t ==> hijos_posibles(
                    cruce,
                    p[padre_uno(emp, u) as int].pesos,
                    p[padre_dos(emp, u) as int].pesos,
                    #[trigger] hijos_g[u],
                ),
        decreases n_grupos - t,
    {
        let (i1, i2) = padres_del_grupo(emparejamientos, t);
        let padre1 = &miembros[i1];
        let padre2 = &miembros[i2];
        assert(padre1@ == poblacion.individuos@[i1 as int]@);
        assert(padre2@ == poblacion.individuos@[i2 as int]@);
        assert(pesos_validos(e, padre1.pesos@) && pesos_validos(e, padre2.pesos@));
        assert(p[i1 as int].pesos == padre1.pesos@ && p[i2 as int].pesos == padre2.pesos@);
        let hijos = cruzar_padres(cruce, padre1.pesos.as_slice(), padre2.pesos.as_slice(), rng);
        let num_nuevos: usize = hijos.len();
        let ghost hs = Seq::new(hijos@.len(), |h: int| hijos@[h]@);
        let ghost base = vistas(ronda@);
        let ghost previos = hijos_g;
        proof {
            hijos_g = hijos_g.push(hs);
            lema_cruzados_prefijo(p, emp, previos, hijos_g, t as nat);
            assert(hijos_posibles(cruce, padre1.pesos@, padre2.pesos@, hs));
        }
        let mut h: usize = 0;
        while h < num_nuevos
            invariant
            son_copias(miembros@, poblacion.individuos@),
                h <= num_nuevos,
                num_nuevos == hijos@.len(),
                1 <= num_nuevos,
                hs == Seq::new(hijos@.len(), |h: int| hijos@[h]@),
                forall|k: int| 0 <= k < hijos@.len() ==> pesos_validos(e, (#[trigger] hijos@[k])@),
                candidatos_validos(ronda@, *poblacion, e),
                vistas(ronda@) == base + como_candidatos(hs).subrange(0, h as int),
                ronda@.len() == base.len() + h,
                t == 0 ==> base.len() == 0,
                t > 0 || h > 0 ==> ronda@.len() >= 1 && ronda@[0].clave is None,
            decreases num_nuevos - h,
        {
            let pesos = hijos[h].clone();
            assert(pesos@ == hijos@[h as int]@);
            let ghost previa = ronda@;
            let nuevo = Candidato { clave: None, pesos };
            proof {
                lema_vistas_push(previa, nuevo);
                assert(nuevo@ == como_candidatos(hs)[h as int]);
                assert(como_candidatos(hs).subrange(0, h as int).push(como_candidatos(hs)[h as int])
                    =~= como_candidatos(hs).subrange(0, h + 1));
            }
            ronda.push(nuevo);
            proof {
                assert forall|k: int| 0 <= k < ronda@.len() implies candidato_valido(
                    #[trigger] ronda@[k],
                    *poblacion,
                    e,
                ) by {
                    if k < previa.len() {
                        assert(ronda@[k] == previa[k]);
                    }
                }
                assert(vistas(ronda@) =~= base + como_candidatos(hs).subrange(0, h + 1));
                if previa.len() > 0 {
                    assert(ronda@[0] == previa[0]);
                } else {
                    assert(ronda@[0] == nuevo);
                }
            }
            h += 1;
        }
        assert(como_candidatos(hs).subrange(0, num_nuevos as int) =~= como_candidatos(hs));
        if num_nuevos == 1 {
            let ghost previa = ronda@;
            let segundo = superviviente(poblacion, &miembros, i2, Ghost(e));
            proof {
                lema_vistas_push(previa, segundo);
            }
            ronda.push(segundo);
            proof {
                assert forall|k: int| 0 <= k < ronda@.len() implies candidato_valido(
                    #[trigger] ronda@[k],
                    *poblacion,
                    e,
                ) by {
                    if k < previa.len() {
                        assert(ronda@[k] == previa[k]);
                    }
                }
                assert(ronda@[0] == previa[0]);
                assert(vistas(ronda@) =~= base + como_candidatos(hs).push(
                    superviviente_de(p, i2 as int),
                ));
            }
        }
        assert(vistas(ronda@) == base + aporte_grupo(p, emp, hs, t as int));
        t += 1;
    }
    let ghost cruz = vistas(ronda@);
    let desde: usize = 4 * n_grupos;
    let num_parejas: usize = (tam - desde + 1) / 2;
    let mut k: usize = 0;
    while k < num_parejas
        invariant
            son_copias(miembros@, poblacion.individuos@),
            k <= num_parejas,
            p == poblacion@,
            emp == emparejamientos@,
            tam == poblacion.individuos@.len(),
            emp.len() == tam,
            forall|j: int| 0 <= j < tam ==> #[trigger] emp[j] < tam,
            desde == 4 * n_grupos,
            desde <= tam,
            num_parejas == (tam - desde + 1) / 2,
            ronda@.len() >= 1,
            ronda@[0].clave is None,
            candidatos_validos(ronda@, *poblacion, e),
            vistas(ronda@) == cruz + emparejados(p, emp, desde as int, k as nat),
        decreases num_parejas - k,
    {
        let pos: usize = desde + 2 * k;
        let m: usize = if pos + 1 < tam && emparejamientos[pos + 1] < emparejamientos[pos] {
            emparejamientos[pos + 1]
        } else {
            emparejamientos[pos]
        };
        assert(m == ganador_de_pareja(emp, pos as int));
        let ghost previa = ronda@;
        let ganador = superviviente(poblacion, &miembros, m, Ghost(e));
        proof {
            lema_vistas_push(previa, ganador);
        }
        ronda.push(ganador);
        proof {
            assert forall|j: int| 0 <= j < ronda@.len() implies candidato_valido(
                #[trigger] ronda@[j],
                *poblacion,
                e,
            ) by {
                if j < previa.len() {
                    assert(ronda@[j] == previa[j]);
                }
            }
            assert(ronda@[0] == previa[0]);
            assert(vistas(ronda@) =~= cruz + emparejados(p, emp, desde as int, (k + 1) as nat));
        }
        k += 1;
    }
    assert(vistas(ronda@) == de_pasada(p, emp, hijos_g, n_grupos as nat));
    ronda
}

/// The first `tam` candidates of `s`, or all of them if they are no more.
pub open spec fn recortado(s: Seq<CandidatoModelo>, tam: nat) -> Seq<CandidatoModelo> {
    if s.len() > tam {
        s.subrange(0, tam as int)
    } else {
        s
    }
}

/// The candidates that the first `k` passes give, no more than `tam` of them.
pub open spec fn seleccionados(rondas: Seq<Seq<CandidatoModelo>>, tam: nat, k: nat) -> Seq<
    CandidatoModelo,
>
    decreases k,
{
    if k == 0 {
        Seq::empty()
    } else {
        recortado(seleccionados(rondas, tam, (k - 1) as nat) + rondas[k - 1], tam)
    }
}

/// The candidates of the first `k` passes depend on those passes alone.
proof fn lema_seleccionados_prefijo(
    r1: Seq<Seq<CandidatoModelo>>,
    r2: Seq<Seq<CandidatoModelo>>,
    tam: nat,
    k: nat,
)
    requires
        forall|j: int| 0 <= j < k ==> r1[j] == r2[j],
    ensures
        seleccionados(r1, tam, k) == seleccionados(r2, tam, k),
    decreases k,
{
    if k > 0 {
        lema_seleccionados_prefijo(r1, r2, tam, (k - 1) as nat);
    }
}

/// `r` is what passes over the population give, each in an order of
/// its own that lists every member once, cut to the size of the
/// population.
pub open spec fn es_seleccion(p: Seq<CromosomaModelo>, cruce: Cruce, r: Seq<CandidatoModelo>) -> bool {
    exists|emps: Seq<Seq<usize>>, rondas: Seq<Seq<CandidatoModelo>>|
        {
            &&& emps.len() == rondas.len()
            &&& r == #[trigger] seleccionados(rondas, p.len(), emps.len())
            &&& forall|k: int|
                0 <= k < emps.len() ==> (#[trigger] emps[k]).to_multiset() == identidad(
                    p.len(),
                ).to_multiset() && es_pasada(
                    p,
                    emps[k],
                    cruce,
                    grupos_de_cruce_spec(p.len()),
                    rondas[k],
                )
        }
}

/// Selection and crossover: the candidates for the next generation.
/// The members are shuffled and `pasada` goes over them; this is
/// repeated with a new shuffle until there are as many candidates as
/// members, and those beyond that number are left out.
pub fn seleccionar(
    entrenamiento: &[Dato],
    poblacion: &Poblacion,
    cruce: Cruce,
    rng: &mut Isaac64Rng,
) -> (nueva: Vec<Candidato>)
    requires
        muestra_valida(entrenamiento@),
        poblacion.bien_formada(entrenamiento@),
        poblacion.individuos@.len() >= 4,
    ensures
        nueva@.len() == poblacion.individuos@.len(),
        candidatos_validos(nueva@, *poblacion, entrenamiento@),
        nueva@[0].clave is None,
        es_seleccion(poblacion@, cruce, vistas(nueva@)),
{
    let ghost e = entrenamiento@;
    let ghost p = poblacion@;
    let tam: usize = poblacion.len();
    let mut nueva: Vec<Candidato> = Vec::new();
    let ghost mut emps: Seq<Seq<usize>> = Seq::empty();
    let ghost mut rondas: Seq<Seq<CandidatoModelo>> = Seq::empty();
    assert(vistas(nueva@) =~= seleccionados(rondas, tam as nat, 0));
    while nueva.len() < tam
        invariant
            e == entrenamiento@,
            p == poblacion@,
            muestra_valida(e),
            poblacion.bien_formada(e),
            tam == poblacion.individuos@.len(),
            tam >= 4,
            nueva@.len() <= tam,
            candidatos_validos(nueva@, *poblacion, e),
            nueva@.len() > 0 ==> nueva@[0].clave is None,
            emps.len() == rondas.len(),
            vistas(nueva@) == seleccionados(rondas, tam as nat, rondas.len()),
            forall|k: int|
                0 <= k < emps.len() ==> (#[trigger] emps[k]).to_multiset() == identidad(
                    tam as nat,
                ).to_multiset() && es_pasada(
                    p,
                    emps[k],
                    cruce,
                    grupos_de_cruce_spec(tam as nat),
                    rondas[k],
                ),
        decreases tam - nueva@.len(),
    {
        let emp = permutacion_aleatoria(tam, rng);
        let ronda = pasada(entrenamiento, poblacion, emp.as_slice(), cruce, rng);
        let ghost base = vistas(nueva@);
        let ghost rondas_previas = rondas;
        proof {
            emps = emps.push(emp@);
            rondas = rondas.push(vistas(ronda@));
            lema_seleccionados_prefijo(rondas_previas, rondas, tam as nat, rondas_previas.len());
        }
        let mut h: usize = 0;
        while h < ronda.len() && nueva.len() < tam
            invariant
                h <= ronda@.len(),
                ronda@.len() >= 1,
                ronda@[0].clave is None,
                nueva@.len() <= tam,
                nueva@.len() == base.len() + h,
                candidatos_validos(ronda@, *poblacion, e),
                candidatos_validos(nueva@, *poblacion, e),
                nueva@.len() > 0 ==> nueva@[0].clave is None,
                vistas(nueva@) == base + vistas(ronda@).subrange(0, h as int),
            decreases ronda@.len() - h,
        {
            let c = &ronda[h];
            let pesos = c.pesos.clone();
            assert(pesos@ == c.pesos@);
            let ghost previa = nueva@;
            let copia = Candidato { clave: c.clave, pesos };
            proof {
                lema_vistas_push(previa, copia);
                assert(copia@ == vistas(ronda@)[h as int]);
                assert(vistas(ronda@).subrange(0, h as int).push(vistas(ronda@)[h as int])
                    =~= vistas(ronda@).subrange(0, h + 1));
            }
            nueva.push(copia);
            proof {
                assert(nueva@[nueva@.len() - 1]@ == ronda@[h as int]@);
                assert(candidato_valido(ronda@[h as int], *poblacion, e));
                assert forall|k: int| 0 <= k < nueva@.len() implies candidato_valido(
                    #[trigger] nueva@[k],
                    *poblacion,
                    e,
                ) by {
                    if k < previa.len() {
                        assert(nueva@[k] == previa[k]);
                    }
                }
                if previa.len() > 0 {
                    assert(nueva@[0] == previa[0]);
                }
                assert(vistas(nueva@) =~= base + vistas(ronda@).subrange(0, h + 1));
            }
            h += 1;
        }
        proof {
            let todo = base + vistas(ronda@);
            if h == ronda@.len() {
                assert(vistas(ronda@).subrange(0, h as int) =~= vistas(ronda@));
            } else {
                assert(vistas(nueva@) =~= todo.subrange(0, tam as int));
            }
            assert(vistas(nueva@) == recortado(todo, tam as nat));
        }
    }
    assert(vistas(nueva@) == seleccionados(rondas, p.len(), emps.len()));
    nueva
}

/// Number of mutations in a generation of `n_genes` genes: a thousandth
/// of them, rounded.
pub open spec fn esperanza_mutaciones_spec(n_genes: nat) -> nat {
    (n_genes + 500) / 1000
}

/// Computes `esperanza_mutaciones_spec`.
pub fn esperanza_mutaciones(n_genes: usize) -> (n: usize)
    ensures
        n == esperanza_mutaciones_spec(n_genes as nat),
{
    ((n_genes as u128 + 500) / 1000) as usize
}

/// The individual and the gene that the random number `n` picks among
/// `n_genes` genes, `n_caracteristicas` to each individual.
pub fn numero_a_mutacion(n: usize, n_genes: usize, n_caracteristicas: usize) -> (m: (usize, usize))
    requires
        n_genes > 0,
        n_caracteristicas > 0,
    ensures
        m.0 == (n % n_genes) / n_caracteristicas,
        m.1 == (n % n_genes) % n_caracteristicas,
        m.1 < n_caracteristicas,
{
    let n_mod: usize = n % n_genes;
    (n_mod / n_caracteristicas, n_mod % n_caracteristicas)
}

/// The candidates after the first `n` of the given mutations: each
/// moves one gene of one candidate by the neighbour operator with the
/// given step, and takes the key of that candidate away.
pub open spec fn mutados(
    cs: Seq<CandidatoModelo>,
    vecino: Vecino,
    mutaciones: Seq<(usize, usize)>,
    pasos: Seq<i64>,
    n: nat,
) -> Seq<CandidatoModelo>
    decreases n,
{
    if n == 0 {
        cs
    } else {
        let previos = mutados(cs, vecino, mutaciones, pasos, (n - 1) as nat);
        let individuo = mutaciones[n - 1].0 as int;
        let gen = mutaciones[n - 1].1 as int;
        previos.update(
            individuo,
            CandidatoModelo {
                clave: None,
                pesos: vecino_spec(vecino, previos[individuo].pesos, gen, pasos[n - 1]),
            },
        )
    }
}

/// The outcome of the first `n` mutations depends on the first `n` steps alone.
proof fn lema_mutados_prefijo(
    cs: Seq<CandidatoModelo>,
    vecino: Vecino,
    mutaciones: Seq<(usize, usize)>,
    pasos_a: Seq<i64>,
    pasos_b: Seq<i64>,
    n: nat,
)
    requires
        forall|j: int| 0 <= j < n ==> pasos_a[j] == pasos_b[j],
    ensures
        mutados(cs, vecino, mutaciones, pasos_a, n) == mutados(cs, vecino, mutaciones, pasos_b, n),
    decreases n,
{
    if n > 0 {
        lema_mutados_prefijo(cs, vecino, mutaciones, pasos_a, pasos_b, (n - 1) as nat);
    }
}

/// What holds of the largest component of a mutated candidate.  A
/// candidate that is normalized or all zeros is, after the first `n`
/// mutations, normalized, or all zeros, or it was all zeros when one of
/// those mutations moved a gene of it.
pub proof fn lema_mutados_normales(
    cs: Seq<CandidatoModelo>,
    vecino: Vecino,
    mutaciones: Seq<(usize, usize)>,
    pasos: Seq<i64>,
    n: nat,
    j: int,
)
    requires
        n <= mutaciones.len(),
        0 <= j < cs.len(),
        forall|i: int|
            0 <= i < mutaciones.len() ==> (#[trigger] mutaciones[i]).0 < cs.len()
                && mutaciones[i].1 < cs[j].pesos.len(),
        forall|i: int| 0 <= i < cs.len() ==> (#[trigger] cs[i]).pesos.len() == cs[j].pesos.len(),
        normalizado(cs[j].pesos) || todo_cero(cs[j].pesos),
    ensures
        mutados(cs, vecino, mutaciones, pasos, n).len() == cs.len(),
        forall|i: int|
            0 <= i < cs.len() ==> (#[trigger] mutados(cs, vecino, mutaciones, pasos, n)[i]).pesos.len()
                == cs[j].pesos.len(),
        normalizado(mutados(cs, vecino, mutaciones, pasos, n)[j].pesos) || todo_cero(
            mutados(cs, vecino, mutaciones, pasos, n)[j].pesos,
        ) || exists|k: nat|
            k < n && mutaciones[k as int].0 == j && todo_cero(
                (#[trigger] mutados(cs, vecino, mutaciones, pasos, k))[j].pesos,
            ),
    decreases n,
{
    if n > 0 {
        lema_mutados_normales(cs, vecino, mutaciones, pasos, (n - 1) as nat, j);
        let previos = mutados(cs, vecino, mutaciones, pasos, (n - 1) as nat);
        let ahora = mutados(cs, vecino, mutaciones, pasos, n);
        let individuo = mutaciones[n - 1].0 as int;
        let gen = mutaciones[n - 1].1 as int;
        assert(previos[individuo].pesos.len() == cs[j].pesos.len());
        lema_vecino_normal(vecino, previos[individuo].pesos, gen, pasos[n - 1]);
        assert forall|i: int| 0 <= i < cs.len() implies (#[trigger] ahora[i]).pesos.len()
            == cs[j].pesos.len() by {
            if i != individuo {
                assert(ahora[i] == previos[i]);
            }
        }
        if individuo != j {
            assert(ahora[j] == previos[j]);
        }
        if !(normalizado(ahora[j].pesos) || todo_cero(ahora[j].pesos)) {
            if normalizado(previos[j].pesos) || todo_cero(previos[j].pesos) {
                assert(individuo == j && todo_cero(previos[j].pesos));
                assert(mutaciones[(n - 1) as int].0 == j && todo_cero(
                    mutados(cs, vecino, mutaciones, pasos, (n - 1) as nat)[j].pesos,
                ));
            } else {
                let k = choose|k: nat|
                    k < n - 1 && mutaciones[k as int].0 == j && todo_cero(
                        (#[trigger] mutados(cs, vecino, mutaciones, pasos, k))[j].pesos,
                    );
                assert(k < n && mutaciones[k as int].0 == j && todo_cero(
                    mutados(cs, vecino, mutaciones, pasos, k)[j].pesos,
                ));
            }
        }
    }
}

/// `despues` is what mutation may make of the candidates `antes`, of
/// `n_atributos` genes each: for some genes, as many as
/// `esperanza_mutaciones_spec` says, and some steps.
pub open spec fn es_mutacion(
    n_atributos: nat,
    vecino: Vecino,
    antes: Seq<CandidatoModelo>,
    despues: Seq<CandidatoModelo>,
) -> bool {
    exists|mutaciones: Seq<(usize, usize)>, pasos: Seq<i64>|
        {
            &&& mutaciones.len() == esperanza_mutaciones_spec(antes.len() * n_atributos)
            &&& pasos.len() == mutaciones.len()
            &&& forall|j: int|
                0 <= j < mutaciones.len() ==> (#[trigger] mutaciones[j]).0 < antes.len()
                    && mutaciones[j].1 < n_atributos
            &&& despues == #[trigger] mutados(antes, vecino, mutaciones, pasos, mutaciones.len())
        }
}

/// Mutation: as many random genes as `esperanza_mutaciones` says are
/// drawn, and then each is moved by the neighbour operator; the
/// candidate it belongs to loses its key.
pub fn mutar_candidatos<R: Ruido>(
    entrenamiento: &[Dato],
    poblacion: &Poblacion,
    candidatos: &mut Vec<Candidato>,
    vecino: Vecino,
    rng: &mut Isaac64Rng,
    ruido: &R,
)
    requires
        muestra_valida(entrenamiento@),
        poblacion.evaluada(entrenamiento@),
        old(candidatos)@.len() > 0,
        old(candidatos)@.len() * num_atributos(entrenamiento@) <= usize::MAX,
        candidatos_validos(old(candidatos)@, *poblacion, entrenamiento@),
    ensures
        final(candidatos)@.len() == old(candidatos)@.len(),
        candidatos_validos(final(candidatos)@, *poblacion, entrenamiento@),
        forall|k: int|
            0 <= k < old(candidatos)@.len() && old(candidatos)@[k].clave is None ==> (
            #[trigger] final(candidatos)@[k]).clave is None,
        exists|mutaciones: Seq<(usize, usize)>, pasos: Seq<i64>|
            {
                &&& mutaciones.len() == esperanza_mutaciones_spec(
                    old(candidatos)@.len() * num_atributos(entrenamiento@),
                )
                &&& pasos.len() == mutaciones.len()
                &&& forall|j: int|
                    0 <= j < mutaciones.len() ==> (#[trigger] mutaciones[j]).0 < old(
                        candidatos,
                    )@.len() && mutaciones[j].1 < num_atributos(entrenamiento@)
                &&& vistas(final(candidatos)@) == #[trigger] mutados(
                    vistas(old(candidatos)@),
                    vecino,
                    mutaciones,
                    pasos,
                    mutaciones.len(),
                )
            },
        es_mutacion(
            num_atributos(entrenamiento@),
            vecino,
            vistas(old(candidatos)@),
            vistas(final(candidatos)@),
        ),
{
    let ghost e = entrenamiento@;
    let ghost iniciales = vistas(candidatos@);
    let n_caracteristicas: usize = entrenamiento[0].num_atributos();
    let tam: usize = candidatos.len();
    proof {
        assert(tam * n_caracteristicas >= 1) by (nonlinear_arith)
            requires
                tam >= 1,
                n_caracteristicas >= 1,
        ;
    }
    let n_genes: usize = tam * n_caracteristicas;
    let num: usize = esperanza_mutaciones(n_genes);
    let mut mutaciones: Vec<(usize, usize)> = Vec::new();
    let mut k: usize = 0;
    while k < num
        invariant
            k <= num,
            n_genes == tam * n_caracteristicas,
            n_genes > 0,
            n_caracteristicas > 0,
            mutaciones@.len() == k,
            forall|j: int|
                0 <= j < k ==> (#[trigger] mutaciones@[j]).0 < tam && mutaciones@[j].1
                    < n_caracteristicas,
        decreases num - k,
    {
        let n: usize = siguiente_usize(rng);
        let m = numero_a_mutacion(n, n_genes, n_caracteristicas);
        proof {
            let n_mod = (n % n_genes) as int;
            assert(n_mod / (n_caracteristicas as int) < tam) by (nonlinear_arith)
                requires
                    0 <= n_mod < tam * n_caracteristicas,
                    n_caracteristicas > 0,
            ;
        }
        mutaciones.push(m);
        k += 1;
    }
    let ghost mut pasos: Seq<i64> = Seq::empty();
    let mut j: usize = 0;
    while j < num
        invariant
            j <= num,
            num == mutaciones@.len(),
            tam == old(candidatos)@.len(),
            candidatos@.len() == tam,
            pasos.len() == j,
            vistas(candidatos@) == mutados(iniciales, vecino, mutaciones@, pasos, j as nat),
            muestra_valida(e),
            poblacion.evaluada(e),
            n_caracteristicas == num_atributos(e),
            forall|i: int|
                0 <= i < num ==> (#[trigger] mutaciones@[i]).0 < tam && mutaciones@[i].1
                    < n_caracteristicas,
            candidatos_validos(candidatos@, *poblacion, e),
            forall|i: int|
                0 <= i < tam && old(candidatos)@[i].clave is None ==> (
                #[trigger] candidatos@[i]).clave is None,
        decreases num - j,
    {
        let individuo: usize = mutaciones[j].0;
        let gen: usize = mutaciones[j].1;
        proof {
            let c = candidatos@[individuo as int];
            assert(candidato_valido(c, *poblacion, e));
            assert(pesos_validos(e, c.pesos@));
        }
        let mutado = aplicar_vecino(vecino, candidatos[individuo].pesos.as_slice(), gen, rng, ruido);
        let ghost previa = candidatos@;
        let ghost pasos_previos = pasos;
        proof {
            let paso = choose|paso: i64|
                mutado@ == vecino_spec(
                    vecino,
                    candidatos@[individuo as int].pesos@,
                    gen as int,
                    paso,
                );
            pasos = pasos.push(paso);
            lema_mutados_prefijo(iniciales, vecino, mutaciones@, pasos_previos, pasos, j as nat);
        }
        candidatos.set(individuo, Candidato { clave: None, pesos: mutado });
        proof {
            assert(vistas(candidatos@) =~= mutados(
                iniciales,
                vecino,
                mutaciones@,
                pasos,
                (j + 1) as nat,
            ));
            assert forall|i: int| 0 <= i < tam implies candidato_valido(
                #[trigger] candidatos@[i],
                *poblacion,
                e,
            ) by {
                if i != individuo {
                    assert(candidatos@[i] == previa[i]);
                }
            }
        }
        j += 1;
    }
    assert(vistas(candidatos@) == mutados(
        vistas(old(candidatos)@),
        vecino,
        mutaciones@,
        pasos,
        mutaciones@.len(),
    ));
}

/// An individual of `nueva` that has the identifier of one of `vieja`
/// has its score too.
pub open spec fn fiel(nueva: Poblacion, vieja: Poblacion) -> bool {
    forall|k: int, j: int|
        0 <= k < nueva.individuos@.len() && 0 <= j < vieja.individuos@.len() && (
        #[trigger] nueva.individuos@[k]).id == (#[trigger] vieja.individuos@[j]).id
            ==> nueva.individuos@[k].aptitud == vieja.individuos@[j].aptitud
}

/// Inserting an individual that is true to `vieja` keeps a population true to it.
proof fn lema_fiel_insertar(previa: Poblacion, nueva: Poblacion, c: Cromosoma, vieja: Poblacion)
    requires
        fiel(previa, vieja),
        exists|p: int|
            0 <= p <= previa.individuos@.len() && nueva.individuos@ == previa.individuos@.insert(
                p,
                c,
            ),
        forall|j: int|
            0 <= j < vieja.individuos@.len() && (#[trigger] vieja.individuos@[j]).id == c.id
                ==> vieja.individuos@[j].aptitud == c.aptitud,
    ensures
        fiel(nueva, vieja),
{
    let p = choose|p: int|
        0 <= p <= previa.individuos@.len() && nueva.individuos@ == previa.individuos@.insert(p, c);
    assert forall|k: int, j: int|
        0 <= k < nueva.individuos@.len() && 0 <= j < vieja.individuos@.len() && (
        #[trigger] nueva.individuos@[k]).id == (#[trigger] vieja.individuos@[j]).id
        implies nueva.individuos@[k].aptitud == vieja.individuos@[j].aptitud by {
        if k < p {
            assert(nueva.individuos@[k] == previa.individuos@[k]);
        } else if k > p {
            assert(nueva.individuos@[k] == previa.individuos@[k - 1]);
        }
    }
}

/// Number of candidates without a key among the first `n`.
pub open spec fn sin_clave(cs: Seq<Candidato>, n: nat) -> nat
    decreases n,
{
    if n == 0 {
        0
    } else {
        sin_clave(cs, (n - 1) as nat) + (if cs[n - 1].clave is None {
            1nat
        } else {
            0nat
        })
    }
}

/// `x` is a member of the previous population, unchanged, or a
/// candidate without a key, scored, whose identifier is the count of
/// evaluations `n0` plus its number among the candidates without a key.
pub open spec fn procede(
    x: Cromosoma,
    vieja: Poblacion,
    cs: Seq<Candidato>,
    n0: usize,
    e: Seq<Dato>,
) -> bool {
    ||| exists|j: int|
        0 <= j < vieja.individuos@.len() && (#[trigger] vieja.individuos@[j]).id == x.id
            && vieja.individuos@[j].aptitud == x.aptitud && vieja.individuos@[j].pesos@ == x.pesos@
    ||| exists|k: int|
        0 <= k < cs.len() && (#[trigger] cs[k]).clave is None && x.pesos@ == cs[k].pesos@ && x.id
            == n0 + sin_clave(cs, (k + 1) as nat) && x.aptitud == puntuacion(e, x.pesos@)
}

/// Every member comes from the previous population or from a candidate.
pub open spec fn proceden(
    nueva: Poblacion,
    vieja: Poblacion,
    cs: Seq<Candidato>,
    n0: usize,
    e: Seq<Dato>,
) -> bool {
    forall|i: int|
        0 <= i < nueva.individuos@.len() ==> procede(#[trigger] nueva.individuos@[i], vieja, cs, n0, e)
}

/// Inserting a member that comes from the previous population or from
/// a candidate keeps a population of such members.
proof fn lema_proceden_insertar(
    previa: Poblacion,
    nueva: Poblacion,
    c: Cromosoma,
    vieja: Poblacion,
    cs: Seq<Candidato>,
    n0: usize,
    e: Seq<Dato>,
)
    requires
        proceden(previa, vieja, cs, n0, e),
        procede(c, vieja, cs, n0, e),
        exists|p: int|
            0 <= p <= previa.individuos@.len() && nueva.individuos@ == previa.individuos@.insert(
                p,
                c,
            ),
    ensures
        proceden(nueva, vieja, cs, n0, e),
{
    let p = choose|p: int|
        0 <= p <= previa.individuos@.len() && nueva.individuos@ == previa.individuos@.insert(p, c);
    assert forall|i: int| 0 <= i < nueva.individuos@.len() implies procede(
        #[trigger] nueva.individuos@[i],
        vieja,
        cs,
        n0,
        e,
    ) by {
        if i < p {
            assert(nueva.individuos@[i] == previa.individuos@[i]);
        } else if i > p {
            assert(nueva.individuos@[i] == previa.individuos@[i - 1]);
        }
    }
}

/// The population that the first `k` candidates make.  A candidate
/// with a key enters under it, unless an individual of its identifier
/// has entered already; one without is scored and enters under the
/// count of evaluations, which starts at `n0` and grows by one with each
/// such candidate.
pub open spec fn volcado(cs: Seq<Candidato>, n0: nat, e: Seq<Dato>, k: nat) -> Seq<CromosomaModelo>
    decreases k,
{
    if k == 0 {
        Seq::empty()
    } else {
        let previa = volcado(cs, n0, e, (k - 1) as nat);
        let c = cs[k - 1];
        match c.clave {
            Some(clave) => if con_id(previa, clave.1) {
                previa
            } else {
                insertar_en(
                    previa,
                    CromosomaModelo { aptitud: clave.0, id: clave.1, pesos: c.pesos@ },
                )
            },
            None => insertar_en(
                previa,
                CromosomaModelo {
                    aptitud: puntuacion(e, c.pesos@) as u64,
                    id: (n0 + sin_clave(cs, k)) as usize,
                    pesos: c.pesos@,
                },
            ),
        }
    }
}

/// `p` with the individual `x` put in if none has its identifier.
pub open spec fn con_individuo(p: Seq<CromosomaModelo>, x: CromosomaModelo) -> Seq<CromosomaModelo> {
    if con_id(p, x.id) {
        p
    } else {
        insertar_en(p, x)
    }
}

/// `p` without its worst individual if it holds more than `tam`.
pub open spec fn sin_sobrante(p: Seq<CromosomaModelo>, tam: nat) -> Seq<CromosomaModelo> {
    if p.len() > tam {
        p.drop_last()
    } else {
        p
    }
}

/// `p` filled up to `tam` individuals with those of `vieja` from rank
/// `k` on that it lacks, best first.
pub open spec fn relleno(
    p: Seq<CromosomaModelo>,
    vieja: Seq<CromosomaModelo>,
    tam: nat,
    k: nat,
) -> Seq<CromosomaModelo>
    decreases vieja.len() - k,
{
    if p.len() >= tam || k >= vieja.len() {
        p
    } else {
        relleno(con_individuo(p, vieja[k as int]), vieja, tam, k + 1)
    }
}

/// The next population: what the candidates make, with the best
/// individual of the previous population put in if it is missing and
/// the worst taken out if that makes one too many, filled up with the
/// next best of the previous population if it is short.
pub open spec fn reemplazo_spec(
    vieja: Seq<CromosomaModelo>,
    cs: Seq<Candidato>,
    n0: nat,
    e: Seq<Dato>,
) -> Seq<CromosomaModelo> {
    relleno(
        sin_sobrante(con_individuo(volcado(cs, n0, e, cs.len()), vieja[0]), vieja.len()),
        vieja,
        vieja.len(),
        1,
    )
}

/// Replacement with elitism.  The candidates become the next
/// population: one that kept its key keeps it (and enters once, however
/// often it was selected), the others are evaluated and get the running
/// number of evaluations as identifier.  The best individual of the
/// previous population enters if it is missing, and the worst leaves if
/// that makes one too many.  If candidates that were selected more than
/// once leave the population short, it is filled with the next best of
/// the previous one.
pub fn reemplazar(
    entrenamiento: &[Dato],
    vieja: &Poblacion,
    candidatos: Vec<Candidato>,
    n_evaluaciones: &mut usize,
) -> (nueva: Poblacion)
    requires
        muestra_valida(entrenamiento@),
        vieja.bien_formada(entrenamiento@),
        vieja.individuos@.len() == candidatos@.len(),
        candidatos@.len() >= 1,
        candidatos_validos(candidatos@, *vieja, entrenamiento@),
        candidatos@[0].clave is None,
        vieja.ids_hasta(*old(n_evaluaciones)),
        *old(n_evaluaciones) + candidatos@.len() <= usize::MAX,
    ensures
        nueva@ == reemplazo_spec(vieja@, candidatos@, *old(n_evaluaciones) as nat, entrenamiento@),
        nueva.bien_formada(entrenamiento@),
        nueva.individuos@.len() == vieja.individuos@.len(),
        nueva.ids_hasta(*final(n_evaluaciones)),
        *final(n_evaluaciones) == *old(n_evaluaciones) + sin_clave(candidatos@, candidatos@.len()),
        *old(n_evaluaciones) < *final(n_evaluaciones) <= *old(n_evaluaciones) + candidatos@.len(),
        nueva.mejor_aptitud() >= vieja.mejor_aptitud(),
        no_peor_que(nueva.individuos@[0], vieja.individuos@[0]),
        proceden(nueva, *vieja, candidatos@, *old(n_evaluaciones), entrenamiento@),
{
    let ghost e = entrenamiento@;
    let ghost n0 = *n_evaluaciones;
    let tam: usize = candidatos.len();
    let mut nueva = Poblacion::new();
    let mut k: usize = 0;
    while k < tam
        invariant
            k <= tam,
            tam == candidatos@.len(),
            tam == vieja.individuos@.len(),
            e == entrenamiento@,
            muestra_valida(e),
            vieja.bien_formada(e),
            vieja.ids_hasta(n0),
            candidatos_validos(candidatos@, *vieja, e),
            candidatos@[0].clave is None,
            nueva.bien_formada(e),
            nueva.individuos@.len() <= k,
            nueva.ids_hasta(*n_evaluaciones),
            fiel(nueva, *vieja),
            proceden(nueva, *vieja, candidatos@, n0, e),
            nueva@ == volcado(candidatos@, n0 as nat, e, k as nat),
            *n_evaluaciones == n0 + sin_clave(candidatos@, k as nat),
            n0 <= *n_evaluaciones <= n0 + k,
            k > 0 ==> n0 < *n_evaluaciones,
            n0 + tam <= usize::MAX,
        decreases tam - k,
    {
        let c = &candidatos[k];
        let ghost previa = nueva;
        match c.clave {
            Some(clave) => {
                if !nueva.tiene_id(clave.1) {
                    let pesos = c.pesos.clone();
                    assert(pesos@ == c.pesos@);
                    let x = Cromosoma { aptitud: clave.0, id: clave.1, pesos };
                    assert(x@ == CromosomaModelo { aptitud: clave.0, id: clave.1, pesos: c.pesos@ });
                    proof {
                        assert(candidato_valido(*c, *vieja, e));
                        let j = choose|j: int|
                            0 <= j < vieja.individuos@.len() && (#[trigger] vieja.individuos@[j]).id
                                == clave.1 && vieja.individuos@[j].aptitud == clave.0
                                && vieja.individuos@[j].pesos@ == c.pesos@;
                        assert(vieja.individuos@[j].id <= n0);
                        assert(procede(x, *vieja, candidatos@, n0, e));
                    }
                    nueva.insertar(x);
                    proof {
                        lema_fiel_insertar(previa, nueva, x, *vieja);
                        lema_proceden_insertar(previa, nueva, x, *vieja, candidatos@, n0, e);
                    }
                }
            },
            None => {
                *n_evaluaciones = *n_evaluaciones + 1;
                proof {
                    assert(candidato_valido(*c, *vieja, e));
                    lema_muestra_evaluable(e, c.pesos@);
                }
                let a: u64 = evaluar(entrenamiento, c.pesos.as_slice());
                let pesos = c.pesos.clone();
                assert(pesos@ == c.pesos@);
                let x = Cromosoma { aptitud: a, id: *n_evaluaciones, pesos };
                assert(x@ == CromosomaModelo {
                    aptitud: puntuacion(e, c.pesos@) as u64,
                    id: (n0 + sin_clave(candidatos@, (k + 1) as nat)) as usize,
                    pesos: c.pesos@,
                });
                proof {
                    assert(!nueva.contiene_id(x.id));
                    assert(previa.ids_hasta(x.id));
                    assert(candidatos@[k as int].clave is None && x.id == n0 + sin_clave(
                        candidatos@,
                        (k + 1) as nat,
                    ));
                    assert(procede(x, *vieja, candidatos@, n0, e));
                }
                nueva.insertar(x);
                proof {
                    lema_fiel_insertar(previa, nueva, x, *vieja);
                    lema_proceden_insertar(previa, nueva, x, *vieja, candidatos@, n0, e);
                }
            },
        }
        k += 1;
    }
    let miembros = vieja.en_orden();
    let mejor_anterior = &miembros[0];
    assert(mejor_anterior@ == vieja.individuos@[0]@);
    let ghost b = vieja.individuos@[0];
    let ghost volcada = nueva@;
    assert(vieja@[0] == b@);
    if !nueva.tiene_id(mejor_anterior.id) {
        let ghost previa = nueva;
        let x = mejor_anterior.clonar();
        assert(procede(x, *vieja, candidatos@, n0, e));
        nueva.insertar(x);
        proof {
            lema_fiel_insertar(previa, nueva, x, *vieja);
            lema_proceden_insertar(previa, nueva, x, *vieja, candidatos@, n0, e);
        }
    }
    proof {
        let i = choose|i: int|
            0 <= i < nueva.individuos@.len() && (#[trigger] nueva.individuos@[i]).id == b.id;
        assert(nueva.individuos@[i].aptitud == b.aptitud);
        assert(nueva.contiene_con(b.id, b.aptitud));
        lema_mejor(nueva, b.id, b.aptitud);
        lema_primero(nueva, b);
    }
    assert(nueva@ == con_individuo(volcada, vieja@[0]));
    let ghost con_elite = nueva@;
    let ghost mut quitado = false;
    if nueva.len() > tam {
        let ghost previa = nueva;
        nueva.eliminar_peor();
        proof {
            quitado = true;
            assert(nueva.individuos@[0] == previa.individuos@[0]);
            assert forall|i: int| 0 <= i < nueva.individuos@.len() implies procede(
                #[trigger] nueva.individuos@[i],
                *vieja,
                candidatos@,
                n0,
                e,
            ) by {
                assert(nueva.individuos@[i] == previa.individuos@[i]);
            }
            assert forall|i: int, j: int|
                0 <= i < nueva.individuos@.len() && 0 <= j < vieja.individuos@.len() && (
                #[trigger] nueva.individuos@[i]).id == (#[trigger] vieja.individuos@[j]).id
                implies nueva.individuos@[i].aptitud == vieja.individuos@[j].aptitud by {
                assert(nueva.individuos@[i] == previa.individuos@[i]);
            }
        }
    }
    assert(nueva@ == sin_sobrante(con_elite, tam as nat));
    let ghost recortada = nueva@;
    assert(vieja@.len() == tam);
    let mut siguiente: usize = 1;
    while nueva.len() < tam
        invariant
            son_copias(miembros@, vieja.individuos@),
            1 <= siguiente,
            vieja@.len() == tam,
            relleno(nueva@, vieja@, tam as nat, siguiente as nat) == relleno(
                recortada,
                vieja@,
                tam as nat,
                1,
            ),
            tam == vieja.individuos@.len(),
            e == entrenamiento@,
            vieja.bien_formada(e),
            vieja.ids_hasta(n0),
            n0 <= *n_evaluaciones,
            nueva.bien_formada(e),
            nueva.ids_hasta(*n_evaluaciones),
            nueva.individuos@.len() <= tam,
            nueva.individuos@.len() > 0,
            fiel(nueva, *vieja),
            proceden(nueva, *vieja, candidatos@, n0, e),
            nueva.mejor_aptitud() >= b.aptitud,
            no_peor_que(nueva.individuos@[0], b),
            b == vieja.individuos@[0],
            quitado ==> nueva.individuos@.len() == tam,
            !quitado ==> siguiente <= tam && forall|j: int|
                0 <= j < siguiente ==> nueva.contiene_id((#[trigger] vieja.individuos@[j]).id),
        decreases tam - nueva.individuos@.len(), tam - siguiente,
    {
        proof {
            lema_palomar(vieja.individuos@.subrange(0, siguiente as int), nueva);
        }
        let x = &miembros[siguiente];
        assert(x@ == vieja.individuos@[siguiente as int]@);
        assert(vieja@[siguiente as int] == x@);
        let ghost antes_de_rellenar = nueva@;
        if !nueva.tiene_id(x.id) {
            let ghost previa = nueva;
            let c = x.clonar();
            assert(procede(c, *vieja, candidatos@, n0, e));
            nueva.insertar(c);
            proof {
                lema_proceden_insertar(previa, nueva, c, *vieja, candidatos@, n0, e);
                lema_fiel_insertar(previa, nueva, c, *vieja);
                lema_mejor(previa, previa.individuos@[0].id, b.aptitud);
                assert(nueva.contiene_con(previa.individuos@[0].id, b.aptitud));
                lema_mejor(nueva, previa.individuos@[0].id, b.aptitud);
                lema_primero_tras_insertar(previa, nueva, c);
            }
        }
        assert(nueva@ == con_individuo(antes_de_rellenar, vieja@[siguiente as int]));
        siguiente += 1;
    }
    nueva
}


/// What a memetic operator may make of the population `a`, and what
/// it then charges.
pub open spec fn es_memetico(
    operador: OperadorMemetico,
    e: Seq<Dato>,
    a: Poblacion,
    b: Poblacion,
    cuenta: usize,
) -> bool {
    &&& refinada(a, b, e)
    &&& operador == OperadorMemetico::Nada ==> cuenta == 0 && b == a
    &&& operador != OperadorMemetico::Nada ==> refinamiento_de(
        a,
        b,
        seleccion_del_operador(operador, a.individuos@.len()),
        refina_por_afinidad(operador),
        e,
        cuenta,
    )
}

/// `b` with the count `n1` may follow `a` with the count `n0` after
/// one generation: some candidates are selected from `a`, mutated, and
/// put in the place of `a` with elitism, and each candidate without a
/// key costs one evaluation.
pub open spec fn es_generacion(
    e: Seq<Dato>,
    cruce: Cruce,
    vecino: Vecino,
    a: Poblacion,
    n0: nat,
    b: Poblacion,
    n1: nat,
) -> bool {
    exists|elegidos: Seq<Candidato>, cs: Seq<Candidato>|
        {
            &&& es_seleccion(a@, cruce, vistas(elegidos))
            &&& #[trigger] es_mutacion(num_atributos(e), vecino, vistas(elegidos), vistas(cs))
            &&& b@ == reemplazo_spec(a@, cs, n0, e)
            &&& n1 == n0 + sin_clave(cs, cs.len())
            &&& b.bien_formada(e)
            &&& b.individuos@.len() == a.individuos@.len()
            &&& b.mejor_aptitud() >= a.mejor_aptitud()
            &&& no_peor_que(b.individuos@[0], a.individuos@[0])
            &&& n1 <= usize::MAX && b.ids_hasta(n1 as usize)
        }
}

/// One generation: selection and crossover, mutation, and replacement
/// with elitism.  `n_evaluaciones` counts the evaluations of the
/// objective function; at least one is made, and at most one for each
/// member.  The population keeps its size, and its best score does not
/// fall.
pub fn generacion<R: Ruido>(
    entrenamiento: &[Dato],
    poblacion: &mut Poblacion,
    cruce: Cruce,
    vecino: Vecino,
    n_evaluaciones: &mut usize,
    rng: &mut Isaac64Rng,
    ruido: &R,
)
    requires
        muestra_valida(entrenamiento@),
        old(poblacion).bien_formada(entrenamiento@),
        old(poblacion).individuos@.len() >= 4,
        old(poblacion).individuos@.len() * num_atributos(entrenamiento@) <= usize::MAX,
        old(poblacion).ids_hasta(*old(n_evaluaciones)),
        *old(n_evaluaciones) + old(poblacion).individuos@.len() <= usize::MAX,
    ensures
        final(poblacion).bien_formada(entrenamiento@),
        final(poblacion).individuos@.len() == old(poblacion).individuos@.len(),
        final(poblacion).ids_hasta(*final(n_evaluaciones)),
        *old(n_evaluaciones) < *final(n_evaluaciones) <= *old(n_evaluaciones) + old(
            poblacion,
        ).individuos@.len(),
        final(poblacion).mejor_aptitud() >= old(poblacion).mejor_aptitud(),
        no_peor_que(final(poblacion).individuos@[0], old(poblacion).individuos@[0]),
        es_generacion(
            entrenamiento@,
            cruce,
            vecino,
            *old(poblacion),
            *old(n_evaluaciones) as nat,
            *final(poblacion),
            *final(n_evaluaciones) as nat,
        ),
{
    let mut nueva_poblacion = seleccionar(entrenamiento, poblacion, cruce, rng);
    let ghost elegidos = nueva_poblacion@;
    mutar_candidatos(entrenamiento, poblacion, &mut nueva_poblacion, vecino, rng, ruido);
    let ghost cs = nueva_poblacion@;
    let nueva = reemplazar(entrenamiento, poblacion, nueva_poblacion, n_evaluaciones);
    proof {
        assert(es_mutacion(num_atributos(entrenamiento@), vecino, vistas(elegidos), vistas(cs)));
    }
    *poblacion = nueva;
}

/// The individual that the vector `v` makes when it is the `i`-th
/// created, counting from zero: it carries its score and the
/// identifier `i`.
pub open spec fn creado(e: Seq<Dato>, v: Seq<u64>, i: nat) -> CromosomaModelo {
    CromosomaModelo { aptitud: puntuacion(e, v) as u64, id: i as usize, pesos: v }
}

/// The ranked population that the first `n` of the vectors `vs` make,
/// created in their order.
pub open spec fn poblacion_creada(e: Seq<Dato>, vs: Seq<Seq<u64>>, n: nat) -> Seq<CromosomaModelo>
    decreases n,
{
    if n == 0 {
        Seq::empty()
    } else {
        insertar_en(
            poblacion_creada(e, vs, (n - 1) as nat),
            creado(e, vs[n - 1], (n - 1) as nat),
        )
    }
}

/// The population of the first `n` vectors depends on them alone.
proof fn lema_creada_prefijo(e: Seq<Dato>, vs: Seq<Seq<u64>>, ws: Seq<Seq<u64>>, n: nat)
    requires
        forall|j: int| 0 <= j < n ==> vs[j] == ws[j],
    ensures
        poblacion_creada(e, vs, n) == poblacion_creada(e, ws, n),
    decreases n,
{
    if n > 0 {
        lema_creada_prefijo(e, vs, ws, (n - 1) as nat);
    }
}

/// `p` may be the first population of a run with generations: it is
/// what `tamano` first solutions of the kind `gen_iniciales` make,
/// scored and numbered from zero in the order of their creation, and
/// ranked.
pub open spec fn es_poblacion_inicial(
    e: Seq<Dato>,
    gen_iniciales: Inicial,
    tamano: nat,
    p: Poblacion,
) -> bool {
    &&& p.bien_formada(e)
    &&& p.individuos@.len() == tamano
    &&& tamano <= usize::MAX && p.ids_hasta(tamano as usize)
    &&& forall|i: int|
        0 <= i < p.individuos@.len() ==> {
            &&& normalizado((#[trigger] p.individuos@[i]).pesos@) || todo_cero(
                p.individuos@[i].pesos@,
            )
            &&& gen_iniciales == Inicial::Relief ==> p.individuos@[i].pesos@ == relief_spec(e)
        }
    &&& exists|vs: Seq<Seq<u64>>|
        vs.len() == tamano && p@ == #[trigger] poblacion_creada(e, vs, tamano)
}

/// A population of `tamano` individuals from the initializer, numbered
/// from zero in the order of their creation.
pub fn poblacion_inicial(
    entrenamiento: &[Dato],
    gen_iniciales: Inicial,
    tamano: usize,
    rng: &mut Isaac64Rng,
) -> (poblacion: Poblacion)
    requires
        muestra_valida(entrenamiento@),
        gen_iniciales == Inicial::Relief ==> relief_aplicable(entrenamiento@),
    ensures
        poblacion.bien_formada(entrenamiento@),
        poblacion.individuos@.len() == tamano,
        poblacion.ids_hasta(tamano),
        gen_iniciales == Inicial::Relief && tamano > 0 ==> poblacion.mejor_aptitud() >= puntuacion(
            entrenamiento@,
            relief_spec(entrenamiento@),
        ),
        es_poblacion_inicial(entrenamiento@, gen_iniciales, tamano as nat, poblacion),
{
    let ghost e = entrenamiento@;
    let mut poblacion = Poblacion::new();
    let mut i: usize = 0;
    let ghost mut vs: Seq<Seq<u64>> = Seq::empty();
    assert(poblacion@ =~= poblacion_creada(e, vs, 0));
    while i < tamano
        invariant
            i <= tamano,
            gen_iniciales == Inicial::Relief && i > 0 ==> puntuacion(e, relief_spec(e))
                <= u64::MAX && poblacion.contiene_con(0, puntuacion(e, relief_spec(e)) as u64),
            e == entrenamiento@,
            muestra_valida(e),
            gen_iniciales == Inicial::Relief ==> relief_aplicable(e),
            poblacion.bien_formada(e),
            poblacion.individuos@.len() == i,
            forall|k: int| 0 <= k < i ==> (#[trigger] poblacion.individuos@[k]).id < i,
            forall|k: int|
                0 <= k < i ==> {
                    &&& normalizado((#[trigger] poblacion.individuos@[k]).pesos@) || todo_cero(
                        poblacion.individuos@[k].pesos@,
                    )
                    &&& gen_iniciales == Inicial::Relief ==> poblacion.individuos@[k].pesos@
                        == relief_spec(e)
                },
            vs.len() == i,
            poblacion@ == poblacion_creada(e, vs, i as nat),
        decreases tamano - i,
    {
        let cromosoma = generar_inicial(gen_iniciales, entrenamiento, rng);
        proof {
            lema_muestra_evaluable(e, cromosoma@);
        }
        let a: u64 = evaluar(entrenamiento, cromosoma.as_slice());
        let ghost previa = poblacion;
        let c = Cromosoma { aptitud: a, id: i, pesos: cromosoma };
        let ghost nuevo = c;
        let ghost previos = vs;
        assert(previa.ids_hasta(i));
        poblacion.insertar(c);
        proof {
            vs = vs.push(nuevo.pesos@);
            lema_creada_prefijo(e, previos, vs, i as nat);
            assert(nuevo@ == creado(e, vs[i as int], i as nat));
            let p = choose|p: int|
                0 <= p <= previa.individuos@.len() && poblacion.individuos@
                    == previa.individuos@.insert(p, nuevo);
            assert forall|k: int| 0 <= k < poblacion.individuos@.len() implies {
                &&& normalizado((#[trigger] poblacion.individuos@[k]).pesos@) || todo_cero(
                    poblacion.individuos@[k].pesos@,
                )
                &&& gen_iniciales == Inicial::Relief ==> poblacion.individuos@[k].pesos@
                    == relief_spec(e)
            } by {
                if k < p {
                    assert(poblacion.individuos@[k] == previa.individuos@[k]);
                } else if k > p {
                    assert(poblacion.individuos@[k] == previa.individuos@[k - 1]);
                }
            }
        }
        i += 1;
    }
    proof {
        if gen_iniciales == Inicial::Relief && tamano > 0 {
            lema_mejor(poblacion, 0, puntuacion(e, relief_spec(e)) as u64);
        }
        assert(poblacion@ == poblacion_creada(e, vs, tamano as nat));
    }
    poblacion
}

/// The state made of the given values.
pub open spec fn estado_generacional(
    poblacion: Poblacion,
    evaluaciones: nat,
    generaciones: nat,
) -> EstadoGeneracional {
    EstadoGeneracional { poblacion, evaluaciones, generaciones }
}

/// The state of a run with generations: the population, the count
/// of evaluations, and the generations since the memetic operator was
/// last applied.
pub ghost struct EstadoGeneracional {
    pub poblacion: Poblacion,
    pub evaluaciones: nat,
    pub generaciones: nat,
}

/// `b` may follow `a`: one generation is made, and if it is the
/// `op_memetica.0`-th since the memetic operator was last applied, the
/// operator is applied and what it charges is added to the count.
pub open spec fn es_paso_generacional(
    e: Seq<Dato>,
    cruce: Cruce,
    vecino: Vecino,
    op_memetica: (usize, OperadorMemetico),
    a: EstadoGeneracional,
    b: EstadoGeneracional,
) -> bool {
    exists|medio: Poblacion, n1: nat|
        {
            &&& #[trigger] es_generacion(e, cruce, vecino, a.poblacion, a.evaluaciones, medio, n1)
            &&& if a.generaciones + 1 == op_memetica.0 {
                b.generaciones == 0 && exists|cuenta: usize|
                    #[trigger] es_memetico(op_memetica.1, e, medio, b.poblacion, cuenta)
                        && b.evaluaciones == saturado((n1 + cuenta) as nat)
            } else {
                b.poblacion == medio && b.evaluaciones == n1 && b.generaciones == a.generaciones
                    + 1
            }
        }
}

/// State `k + 1` follows state `k`.
pub open spec fn eslabon_generacional(
    e: Seq<Dato>,
    cruce: Cruce,
    vecino: Vecino,
    op_memetica: (usize, OperadorMemetico),
    estados: Seq<EstadoGeneracional>,
    k: int,
) -> bool {
    es_paso_generacional(e, cruce, vecino, op_memetica, estados[k], estados[k + 1])
}

/// `f` may be the last state of a run with generations from the first
/// population `inicial` of `tamano` members: the run stops with the
/// first generation after which the count has reached
/// `max_evaluaciones`.  Every population of the run is well formed and
/// has `tamano` members, and the best score never falls.
pub open spec fn es_evolucion_generacional(
    e: Seq<Dato>,
    gen_iniciales: Inicial,
    cruce: Cruce,
    vecino: Vecino,
    op_memetica: (usize, OperadorMemetico),
    tamano: nat,
    max_evaluaciones: nat,
    inicial: Poblacion,
    f: EstadoGeneracional,
) -> bool {
    exists|estados: Seq<EstadoGeneracional>|
        {
            &&& estados.len() >= 2
            &&& es_poblacion_inicial(e, gen_iniciales, tamano, inicial)
            &&& estados[0].poblacion == inicial
            &&& estados[0].evaluaciones == tamano
            &&& estados[0].generaciones == 0
            &&& #[trigger] estados[estados.len() - 1] == f
            &&& f.evaluaciones >= max_evaluaciones
            &&& forall|k: int|
                0 <= k < estados.len() ==> {
                    &&& (#[trigger] estados[k]).poblacion.bien_formada(e)
                    &&& estados[k].poblacion.individuos@.len() == tamano
                    &&& estados[k].poblacion.mejor_aptitud() >= inicial.mejor_aptitud()
                    &&& no_peor_que(estados[k].poblacion.individuos@[0], inicial.individuos@[0])
                }
            &&& forall|k: int|
                1 <= k < estados.len() - 1 ==> (#[trigger] estados[k]).evaluaciones
                    < max_evaluaciones
            &&& forall|k: int|
                0 <= k < estados.len() - 1 ==> #[trigger] eslabon_generacional(
                    e,
                    cruce,
                    vecino,
                    op_memetica,
                    estados,
                    k,
                )
        }
}

/// `w` may be the result of a run with generations: the best member of
/// its last population, the oldest of them if several score the same.
/// It scores no less than any member of the first population.
pub open spec fn es_resultado_generacional(
    e: Seq<Dato>,
    gen_iniciales: Inicial,
    cruce: Cruce,
    vecino: Vecino,
    op_memetica: (usize, OperadorMemetico),
    tamano: nat,
    max_evaluaciones: nat,
    w: Seq<u64>,
) -> bool {
    exists|inicial: Poblacion, f: EstadoGeneracional|
        {
            &&& #[trigger] es_evolucion_generacional(
                e,
                gen_iniciales,
                cruce,
                vecino,
                op_memetica,
                tamano,
                max_evaluaciones,
                inicial,
                f,
            )
            &&& f.poblacion.bien_formada(e)
            &&& f.poblacion.individuos@.len() == tamano
            &&& w == f.poblacion.individuos@[0].pesos@
            &&& no_peor_que(f.poblacion.individuos@[0], inicial.individuos@[0])
            &&& forall|i: int|
                0 <= i < tamano ==> puntuacion(e, w) >= (#[trigger] inicial.individuos@[i]).aptitud
        }
}

/// A chain of states goes on with one that follows its last.
proof fn lema_extender_generacional(
    e: Seq<Dato>,
    cruce: Cruce,
    vecino: Vecino,
    op_memetica: (usize, OperadorMemetico),
    estados: Seq<EstadoGeneracional>,
    b: EstadoGeneracional,
)
    requires
        estados.len() >= 1,
        forall|k: int|
            0 <= k < estados.len() - 1 ==> #[trigger] eslabon_generacional(
                e,
                cruce,
                vecino,
                op_memetica,
                estados,
                k,
            ),
        es_paso_generacional(e, cruce, vecino, op_memetica, estados[estados.len() - 1], b),
    ensures
        forall|k: int|
            0 <= k < estados.len() ==> #[trigger] eslabon_generacional(
                e,
                cruce,
                vecino,
                op_memetica,
                estados.push(b),
                k,
            ),
{
    let nuevos = estados.push(b);
    assert forall|k: int| 0 <= k < estados.len() implies #[trigger] eslabon_generacional(
        e,
        cruce,
        vecino,
        op_memetica,
        nuevos,
        k,
    ) by {
        if k < estados.len() - 1 {
            assert(eslabon_generacional(e, cruce, vecino, op_memetica, estados, k));
            assert(nuevos[k] == estados[k] && nuevos[k + 1] == estados[k + 1]);
        } else {
            assert(nuevos[k] == estados[k] && nuevos[k + 1] == b);
        }
    }
}

/// The run of a memetic algorithm, with its last population and its
/// count of evaluations.  The population has `tamano` individuals.
/// Generations follow one another until the count reaches
/// `max_evaluaciones`: the generation during which it does is the last,
/// and one generation is made in any case.  Every `op_memetica.0`
/// generations the operator `op_memetica.1` is applied to the
/// population, and what it charges is added to the count.
pub fn evolucionar<R: Ruido>(
    entrenamiento: &[Dato],
    gen_iniciales: Inicial,
    cruce: Cruce,
    vecino: Vecino,
    op_memetica: (usize, OperadorMemetico),
    tamano: usize,
    max_evaluaciones: usize,
    rng: &mut Isaac64Rng,
    ruido: &R,
) -> (r: (Poblacion, usize))
    requires
        muestra_valida(entrenamiento@),
        gen_iniciales == Inicial::Relief ==> relief_aplicable(entrenamiento@),
        tamano >= 4,
        tamano * num_atributos(entrenamiento@) <= usize::MAX,
        max_evaluaciones + 2 * tamano <= usize::MAX,
    ensures
        r.0.bien_formada(entrenamiento@),
        r.0.individuos@.len() == tamano,
        r.0.ids_hasta(r.1),
        r.1 >= max_evaluaciones,
        r.1 > tamano,
        gen_iniciales == Inicial::Relief ==> r.0.mejor_aptitud() >= puntuacion(
            entrenamiento@,
            relief_spec(entrenamiento@),
        ),
        exists|inicial: Poblacion, f: EstadoGeneracional|
            #[trigger] es_evolucion_generacional(
                entrenamiento@,
                gen_iniciales,
                cruce,
                vecino,
                op_memetica,
                tamano as nat,
                max_evaluaciones as nat,
                inicial,
                f,
            ) && f.poblacion == r.0 && f.evaluaciones == r.1,
{
    let ghost e = entrenamiento@;
    let mut poblacion = poblacion_inicial(entrenamiento, gen_iniciales, tamano, rng);
    let ghost inicial = poblacion;
    let mut n_evaluaciones: usize = tamano;
    let mut n_generaciones: usize = 0;
    let mut fin = false;
    let ghost mut estados: Seq<EstadoGeneracional> = seq![
        estado_generacional(poblacion, tamano as nat, 0),
    ];
    while !fin
        invariant
            e == entrenamiento@,
            estados.len() >= 1,
            fin ==> estados.len() >= 2,
            !fin ==> estados.len() == 1 || n_evaluaciones < max_evaluaciones,
            es_poblacion_inicial(e, gen_iniciales, tamano as nat, inicial),
            estados[0].poblacion == inicial,
            forall|k: int|
                0 <= k < estados.len() ==> {
                    &&& (#[trigger] estados[k]).poblacion.bien_formada(e)
                    &&& estados[k].poblacion.individuos@.len() == tamano
                    &&& estados[k].poblacion.mejor_aptitud() >= inicial.mejor_aptitud()
                    &&& no_peor_que(estados[k].poblacion.individuos@[0], inicial.individuos@[0])
                },
            poblacion.mejor_aptitud() >= inicial.mejor_aptitud(),
            no_peor_que(poblacion.individuos@[0], inicial.individuos@[0]),
            estados[0].evaluaciones == tamano,
            estados[0].generaciones == 0,
            estados[estados.len() - 1] == estado_generacional(
                poblacion,
                n_evaluaciones as nat,
                n_generaciones as nat,
            ),
            forall|k: int|
                1 <= k < estados.len() - 1 ==> (#[trigger] estados[k]).evaluaciones
                    < max_evaluaciones,
            forall|k: int|
                0 <= k < estados.len() - 1 ==> #[trigger] eslabon_generacional(
                    e,
                    cruce,
                    vecino,
                    op_memetica,
                    estados,
                    k,
                ),
            muestra_valida(e),
            tamano >= 4,
            tamano * num_atributos(e) <= usize::MAX,
            max_evaluaciones + 2 * tamano <= usize::MAX,
            poblacion.bien_formada(e),
            poblacion.individuos@.len() == tamano,
            poblacion.ids_hasta(n_evaluaciones),
            n_generaciones <= n_evaluaciones,
            n_evaluaciones >= tamano,
            !fin ==> n_evaluaciones < max_evaluaciones || n_evaluaciones == tamano,
            fin ==> n_evaluaciones >= max_evaluaciones && n_evaluaciones > tamano,
            gen_iniciales == Inicial::Relief ==> poblacion.mejor_aptitud() >= puntuacion(
                e,
                relief_spec(e),
            ),
        decreases
                (if fin {
                    0
                } else if n_evaluaciones < max_evaluaciones {
                    max_evaluaciones - n_evaluaciones + 1
                } else {
                    1
                }),
    {
        let ghost a = estado_generacional(poblacion, n_evaluaciones as nat, n_generaciones as nat);
        let ghost previos = estados;
        generacion(entrenamiento, &mut poblacion, cruce, vecino, &mut n_evaluaciones, rng, ruido);
        let ghost medio = poblacion;
        let ghost n1 = n_evaluaciones as nat;
        let ghost mut cargada: usize = 0;
        n_generaciones = n_generaciones + 1;
        if n_generaciones == op_memetica.0 {
            let cuenta = aplicar_memetico(op_memetica.1, entrenamiento, &mut poblacion, rng, ruido);
            n_evaluaciones = sumar(n_evaluaciones, cuenta);
            n_generaciones = 0;
            proof {
                cargada = cuenta;
                assert(poblacion.contiene_con(
                    medio.individuos@[0].id,
                    medio.individuos@[0].aptitud,
                ));
                lema_primero(poblacion, medio.individuos@[0]);
            }
        }
        proof {
            let b = estado_generacional(poblacion, n_evaluaciones as nat, n_generaciones as nat);
            assert(es_generacion(e, cruce, vecino, a.poblacion, a.evaluaciones, medio, n1));
            if a.generaciones + 1 == op_memetica.0 {
                assert(es_memetico(op_memetica.1, e, medio, b.poblacion, cargada));
                assert(b.evaluaciones == saturado((n1 + cargada) as nat));
            }
            assert(es_paso_generacional(e, cruce, vecino, op_memetica, a, b));
            lema_extender_generacional(e, cruce, vecino, op_memetica, estados, b);
            estados = estados.push(b);
            assert forall|k: int| 1 <= k < estados.len() - 1 implies (#[trigger] estados[k]).evaluaciones
                < max_evaluaciones by {
                assert(estados[k] == previos[k]);
            }
            assert forall|k: int| 0 <= k < estados.len() implies {
                &&& (#[trigger] estados[k]).poblacion.bien_formada(e)
                &&& estados[k].poblacion.individuos@.len() == tamano
                &&& estados[k].poblacion.mejor_aptitud() >= inicial.mejor_aptitud()
                &&& no_peor_que(estados[k].poblacion.individuos@[0], inicial.individuos@[0])
            } by {
                if k < previos.len() {
                    assert(estados[k] == previos[k]);
                }
            }
        }
        if n_evaluaciones >= max_evaluaciones {
            fin = true;
        }
    }
    proof {
        let f = estado_generacional(poblacion, n_evaluaciones as nat, n_generaciones as nat);
        assert(estados[estados.len() - 1] == f);
        assert(es_evolucion_generacional(
            e,
            gen_iniciales,
            cruce,
            vecino,
            op_memetica,
            tamano as nat,
            max_evaluaciones as nat,
            inicial,
            f,
        ));
    }
    (poblacion, n_evaluaciones)
}

/// A memetic algorithm on a genetic algorithm with generations and
/// elitism: the best individual of the last population of `evolucionar`.
pub fn algoritmo_memetico<R: Ruido>(
    entrenamiento: &[Dato],
    gen_iniciales: Inicial,
    cruce: Cruce,
    vecino: Vecino,
    op_memetica: (usize, OperadorMemetico),
    tamano: usize,
    max_evaluaciones: usize,
    rng: &mut Isaac64Rng,
    ruido: &R,
) -> (w: Vec<u64>)
    requires
        muestra_valida(entrenamiento@),
        gen_iniciales == Inicial::Relief ==> relief_aplicable(entrenamiento@),
        tamano >= 4,
        tamano * num_atributos(entrenamiento@) <= usize::MAX,
        max_evaluaciones + 2 * tamano <= usize::MAX,
    ensures
        pesos_validos(entrenamiento@, w@),
        gen_iniciales == Inicial::Relief ==> puntuacion(entrenamiento@, w@) >= puntuacion(
            entrenamiento@,
            relief_spec(entrenamiento@),
        ),
        es_resultado_generacional(
            entrenamiento@,
            gen_iniciales,
            cruce,
            vecino,
            op_memetica,
            tamano as nat,
            max_evaluaciones as nat,
            w@,
        ),
{
    let (poblacion, _n_evaluaciones) = evolucionar(
        entrenamiento,
        gen_iniciales,
        cruce,
        vecino,
        op_memetica,
        tamano,
        max_evaluaciones,
        rng,
        ruido,
    );
    let miembros = poblacion.en_orden();
    let w = miembros[0].pesos.clone();
    assert(miembros@[0]@ == poblacion.individuos@[0]@);
    assert(w@ == poblacion.individuos@[0].pesos@);
    proof {
        let e = entrenamiento@;
        let (inicial, f) = choose|inicial: Poblacion, f: EstadoGeneracional|
            #[trigger] es_evolucion_generacional(
                e,
                gen_iniciales,
                cruce,
                vecino,
                op_memetica,
                tamano as nat,
                max_evaluaciones as nat,
                inicial,
                f,
            ) && f.poblacion == poblacion && f.evaluaciones == _n_evaluaciones;
        let estados = choose|estados: Seq<EstadoGeneracional>|
            {
                &&& estados.len() >= 2
                &&& es_poblacion_inicial(e, gen_iniciales, tamano as nat, inicial)
                &&& #[trigger] estados[estados.len() - 1] == f
                &&& forall|k: int|
                    0 <= k < estados.len() ==> (#[trigger] estados[k]).poblacion.mejor_aptitud()
                        >= inicial.mejor_aptitud()
            };
        assert(estados[estados.len() - 1].poblacion.mejor_aptitud() >= inicial.mejor_aptitud());
        assert forall|i: int| 0 <= i < tamano implies puntuacion(e, w@) >= (
        #[trigger] inicial.individuos@[i]).aptitud by {
            if i > 0 {
                assert(antecede(inicial.individuos@[0], inicial.individuos@[i]));
            }
        }
    }
    w
}

/// The memetic algorithm with the standard population size and budget.
pub fn memetico_generacional<R: Ruido>(
    entrenamiento: &[Dato],
    gen_iniciales: Inicial,
    cruce: Cruce,
    vecino: Vecino,
    op_memetica: (usize, OperadorMemetico),
    rng: &mut Isaac64Rng,
    ruido: &R,
) -> (w: Vec<u64>)
    requires
        muestra_valida(entrenamiento@),
        gen_iniciales == Inicial::Relief ==> relief_aplicable(entrenamiento@),
        TAMANO_GENERACIONAL * num_atributos(entrenamiento@) <= usize::MAX,
    ensures
        pesos_validos(entrenamiento@, w@),
        gen_iniciales == Inicial::Relief ==> puntuacion(entrenamiento@, w@) >= puntuacion(
            entrenamiento@,
            relief_spec(entrenamiento@),
        ),
        es_resultado_generacional(
            entrenamiento@,
            gen_iniciales,
            cruce,
            vecino,
            op_memetica,
            TAMANO_GENERACIONAL as nat,
            MAX_EVALUACIONES as nat,
            w@,
        ),
{
    algoritmo_memetico(
        entrenamiento,
        gen_iniciales,
        cruce,
        vecino,
        op_memetica,
        TAMANO_GENERACIONAL,
        MAX_EVALUACIONES,
        rng,
        ruido,
    )
}

/// A number of generations that no run reaches: with it the memetic
/// operator is never applied.
pub const GENERACIONES_SIN_MEMETICO: usize = 99999999;

/// The genetic algorithm with generations and elitism: the memetic
/// algorithm without a memetic operator.
pub fn genetico_generacional<R: Ruido>(
    entrenamiento: &[Dato],
    gen_iniciales: Inicial,
    cruce: Cruce,
    vecino: Vecino,
    rng: &mut Isaac64Rng,
    ruido: &R,
) -> (w: Vec<u64>)
    requires
        muestra_valida(entrenamiento@),
        gen_iniciales == Inicial::Relief ==> relief_aplicable(entrenamiento@),
        TAMANO_GENERACIONAL * num_atributos(entrenamiento@) <= usize::MAX,
    ensures
        pesos_validos(entrenamiento@, w@),
        gen_iniciales == Inicial::Relief ==> puntuacion(entrenamiento@, w@) >= puntuacion(
            entrenamiento@,
            relief_spec(entrenamiento@),
        ),
        es_resultado_generacional(
            entrenamiento@,
            gen_iniciales,
            cruce,
            vecino,
            (GENERACIONES_SIN_MEMETICO, OperadorMemetico::Nada),
            TAMANO_GENERACIONAL as nat,
            MAX_EVALUACIONES as nat,
            w@,
        ),
{
    memetico_generacional(
        entrenamiento,
        gen_iniciales,
        cruce,
        vecino,
        (GENERACIONES_SIN_MEMETICO, OperadorMemetico::Nada),
        rng,
        ruido,
    )
}


/// Every member is a weight vector for `e` and carries its score.
pub open spec fn evaluados(poblacion: Seq<Individuo>, e: Seq<Dato>) -> bool {
    forall|i: int|
        0 <= i < poblacion.len() ==> pesos_validos(e, (#[trigger] poblacion[i]).pesos@)
            && poblacion[i].aptitud == puntuacion(e, poblacion[i].pesos@)
}

/// `p` is the first position of the lowest score.
pub open spec fn es_peor(poblacion: Seq<Individuo>, p: int) -> bool {
    &&& 0 <= p < poblacion.len()
    &&& forall|i: int|
        0 <= i < poblacion.len() ==> poblacion[p].aptitud <= (#[trigger] poblacion[i]).aptitud
    &&& forall|i: int| 0 <= i < p ==> poblacion[p].aptitud < (#[trigger] poblacion[i]).aptitud
}

/// `p` is the last position of the highest score.
pub open spec fn es_mejor(poblacion: Seq<Individuo>, p: int) -> bool {
    &&& 0 <= p < poblacion.len()
    &&& forall|i: int|
        0 <= i < poblacion.len() ==> poblacion[p].aptitud >= (#[trigger] poblacion[i]).aptitud
    &&& forall|i: int|
        p < i < poblacion.len() ==> poblacion[p].aptitud > (#[trigger] poblacion[i]).aptitud
}

/// Finds the worst member: the first of the lowest score.
pub fn encontrar_peor(poblacion: &Vec<Individuo>) -> (p: usize)
    requires
        poblacion@.len() > 0,
    ensures
        es_peor(poblacion@, p as int),
{
    let mut p: usize = 0;
    let mut i: usize = 1;
    while i < poblacion.len()
        invariant
            1 <= i <= poblacion@.len(),
            p < i,
            forall|j: int|
                0 <= j < i ==> poblacion@[p as int].aptitud <= (#[trigger] poblacion@[j]).aptitud,
            forall|j: int|
                0 <= j < p ==> poblacion@[p as int].aptitud < (#[trigger] poblacion@[j]).aptitud,
        decreases poblacion@.len() - i,
    {
        if poblacion[i].aptitud < poblacion[p].aptitud {
            p = i;
        }
        i += 1;
    }
    p
}

/// Finds the best member: the last of the highest score.
pub fn encontrar_mejor(poblacion: &Vec<Individuo>) -> (p: usize)
    requires
        poblacion@.len() > 0,
    ensures
        es_mejor(poblacion@, p as int),
{
    let mut p: usize = 0;
    let mut i: usize = 1;
    while i < poblacion.len()
        invariant
            1 <= i <= poblacion@.len(),
            p < i,
            forall|j: int|
                0 <= j < i ==> poblacion@[p as int].aptitud >= (#[trigger] poblacion@[j]).aptitud,
            forall|j: int|
                p < j < i ==> poblacion@[p as int].aptitud > (#[trigger] poblacion@[j]).aptitud,
        decreases poblacion@.len() - i,
    {
        if poblacion[i].aptitud >= poblacion[p].aptitud {
            p = i;
        }
        i += 1;
    }
    p
}

/// The winner of a tournament between the members at `a` and `b`: the
/// one of the higher score, and `a` if they score the same.
pub fn torneo(poblacion: &Vec<Individuo>, a: usize, b: usize) -> (g: usize)
    requires
        a < poblacion@.len(),
        b < poblacion@.len(),
    ensures
        g == (if poblacion@[a as int].aptitud >= poblacion@[b as int].aptitud { a } else { b }),
{
    if poblacion[a].aptitud >= poblacion[b].aptitud {
        a
    } else {
        b
    }
}

/// The mutation rate of an iteration: a hundred times the usual one
/// when a member is crossed with itself.
pub fn tasa_de_mutacion(padre1: usize, padre2: usize) -> (tasa: u64)
    ensures
        tasa == (if padre1 == padre2 { 100 * TASA_MUTACION_GEN } else { TASA_MUTACION_GEN as int }),
{
    if padre1 == padre2 {
        100 * TASA_MUTACION_GEN
    } else {
        TASA_MUTACION_GEN
    }
}

/// The winner of a tournament between the members at `a` and `b`.
pub open spec fn ganador(poblacion: Seq<Individuo>, a: int, b: int) -> int {
    if poblacion[a].aptitud >= poblacion[b].aptitud {
        a
    } else {
        b
    }
}

/// The mutation rate for the children of the members at `padre_a` and
/// `padre_b`: a hundred times the usual one when they are one member.
pub open spec fn tasa_para(padre_a: int, padre_b: int) -> u64 {
    if padre_a == padre_b {
        (100 * TASA_MUTACION_GEN) as u64
    } else {
        TASA_MUTACION_GEN
    }
}

/// The parents of an iteration and the mutation rate for their
/// children, from the four positions drawn: the winners of the
/// tournaments between the first two and between the last two.
pub fn elegir_padres(
    poblacion: &Vec<Individuo>,
    i_1a: usize,
    i_1b: usize,
    i_2a: usize,
    i_2b: usize,
) -> (r: (usize, usize, u64))
    requires
        i_1a < poblacion@.len(),
        i_1b < poblacion@.len(),
        i_2a < poblacion@.len(),
        i_2b < poblacion@.len(),
    ensures
        r.0 == ganador(poblacion@, i_1a as int, i_1b as int),
        r.1 == ganador(poblacion@, i_2a as int, i_2b as int),
        r.2 == tasa_para(r.0 as int, r.1 as int),
        r.0 < poblacion@.len(),
        r.1 < poblacion@.len(),
{
    let padre1: usize = torneo(poblacion, i_1a, i_1b);
    let padre2: usize = torneo(poblacion, i_2a, i_2b);
    let tasa: u64 = tasa_de_mutacion(padre1, padre2);
    (padre1, padre2, tasa)
}

/// The child after its first `n` genes have had their turn: a gene
/// whose draw is below `tasa` is moved by the neighbour operator with
/// its step, and the others stay.
pub open spec fn hijo_mutado(
    hijo: Seq<u64>,
    vecino: Vecino,
    tasa: u64,
    us: Seq<u64>,
    pasos: Seq<i64>,
    n: nat,
) -> Seq<u64>
    decreases n,
{
    if n == 0 {
        hijo
    } else {
        let previo = hijo_mutado(hijo, vecino, tasa, us, pasos, (n - 1) as nat);
        if us[n - 1] < tasa {
            vecino_spec(vecino, previo, n - 1, pasos[n - 1])
        } else {
            previo
        }
    }
}

/// The outcome of the first `n` turns depends on the first `n` draws
/// and steps alone.
proof fn lema_hijo_mutado_prefijo(
    hijo: Seq<u64>,
    vecino: Vecino,
    tasa: u64,
    us_a: Seq<u64>,
    pasos_a: Seq<i64>,
    us_b: Seq<u64>,
    pasos_b: Seq<i64>,
    n: nat,
)
    requires
        forall|j: int| 0 <= j < n ==> us_a[j] == us_b[j] && pasos_a[j] == pasos_b[j],
    ensures
        hijo_mutado(hijo, vecino, tasa, us_a, pasos_a, n) == hijo_mutado(
            hijo,
            vecino,
            tasa,
            us_b,
            pasos_b,
            n,
        ),
    decreases n,
{
    if n > 0 {
        lema_hijo_mutado_prefijo(hijo, vecino, tasa, us_a, pasos_a, us_b, pasos_b, (n - 1) as nat);
    }
}

/// What holds of the largest component of a mutated child.  A child
/// that is normalized or all zeros is, after the turns of its first
/// `n` genes, normalized, or all zeros, or it was all zeros before one
/// of those turns: only the neighbour of the vector of zeros may have
/// its largest component elsewhere than at one.
pub proof fn lema_hijo_mutado_normal(
    hijo: Seq<u64>,
    vecino: Vecino,
    tasa: u64,
    us: Seq<u64>,
    pasos: Seq<i64>,
    n: nat,
)
    requires
        n <= hijo.len(),
        normalizado(hijo) || todo_cero(hijo),
    ensures
        hijo_mutado(hijo, vecino, tasa, us, pasos, n).len() == hijo.len(),
        normalizado(hijo_mutado(hijo, vecino, tasa, us, pasos, n)) || todo_cero(
            hijo_mutado(hijo, vecino, tasa, us, pasos, n),
        ) || exists|k: nat|
            k < n && todo_cero(#[trigger] hijo_mutado(hijo, vecino, tasa, us, pasos, k)),
    decreases n,
{
    if n > 0 {
        lema_hijo_mutado_normal(hijo, vecino, tasa, us, pasos, (n - 1) as nat);
        let previo = hijo_mutado(hijo, vecino, tasa, us, pasos, (n - 1) as nat);
        if us[n - 1] < tasa {
            lema_vecino_normal(vecino, previo, n - 1, pasos[n - 1]);
            if todo_cero(previo) {
                assert(todo_cero(hijo_mutado(hijo, vecino, tasa, us, pasos, (n - 1) as nat)));
            }
        }
        if !normalizado(previo) && !todo_cero(previo) {
            let k = choose|k: nat|
                k < n - 1 && todo_cero(#[trigger] hijo_mutado(hijo, vecino, tasa, us, pasos, k));
            assert(k < n && todo_cero(hijo_mutado(hijo, vecino, tasa, us, pasos, k)));
        }
    }
}

/// Mutates a child with the given draws and steps, one of each for
/// every gene: a gene whose draw is below `tasa` moves by its step.
pub fn mutar_hijo_con(hijo: Vec<u64>, vecino: Vecino, tasa: u64, us: &[u64], pasos: &[i64]) -> (mutado:
    Vec<u64>)
    requires
        us@.len() == hijo@.len(),
        pasos@.len() == hijo@.len(),
    ensures
        mutado@ == hijo_mutado(hijo@, vecino, tasa, us@, pasos@, hijo@.len()),
        mutado@.len() == hijo@.len(),
{
    let n: usize = hijo.len();
    let ghost inicial = hijo@;
    let mut h_mutado = hijo;
    let mut gen: usize = 0;
    while gen < n
        invariant
            gen <= n,
            n == inicial.len(),
            us@.len() == n,
            pasos@.len() == n,
            h_mutado@.len() == n,
            h_mutado@ == hijo_mutado(inicial, vecino, tasa, us@, pasos@, gen as nat),
        decreases n - gen,
    {
        if us[gen] < tasa {
            h_mutado = match vecino {
                Vecino::Bl => vecino_bl_con(h_mutado.as_slice(), gen, pasos[gen]),
                Vecino::BlMut2 => vecino_bl_mut2_con(h_mutado.as_slice(), gen, pasos[gen]),
            };
        }
        gen += 1;
    }
    h_mutado
}

/// `m` is the child `h` after a mutation gene by gene at the rate `tasa`.
pub open spec fn es_hijo_mutado(h: Seq<u64>, vecino: Vecino, tasa: u64, m: Seq<u64>) -> bool {
    exists|us: Seq<u64>, pasos: Seq<i64>|
        us.len() == h.len() && pasos.len() == h.len() && m == #[trigger] hijo_mutado(
            h,
            vecino,
            tasa,
            us,
            pasos,
            h.len(),
        )
}

/// Mutates a child gene by gene: for each gene a uniform draw is made,
/// and the gene moves by a step of the neighbour operator if the draw
/// is below `tasa`.
pub fn mutar_hijo<R: Ruido>(
    hijo: Vec<u64>,
    vecino: Vecino,
    tasa: u64,
    rng: &mut Isaac64Rng,
    ruido: &R,
) -> (mutado: Vec<u64>)
    ensures
        mutado@.len() == hijo@.len(),
        a_escala(hijo@) ==> a_escala(mutado@),
        tasa == 0 ==> mutado@ == hijo@,
        es_hijo_mutado(hijo@, vecino, tasa, mutado@),
{
    let n: usize = hijo.len();
    let ghost inicial = hijo@;
    let mut h_mutado = hijo;
    let ghost mut us: Seq<u64> = Seq::empty();
    let ghost mut pasos: Seq<i64> = Seq::empty();
    let mut gen: usize = 0;
    while gen < n
        invariant
            gen <= n,
            h_mutado@.len() == n,
            n == inicial.len(),
            a_escala(inicial) ==> a_escala(h_mutado@),
            tasa == 0 ==> h_mutado@ == inicial,
            us.len() == gen,
            pasos.len() == gen,
            h_mutado@ == hijo_mutado(inicial, vecino, tasa, us, pasos, gen as nat),
        decreases n - gen,
    {
        let ghost us_previos = us;
        let ghost pasos_previos = pasos;
        let u: u64 = uniforme(rng);
        if u < tasa {
            let nuevo = aplicar_vecino(vecino, h_mutado.as_slice(), gen, rng, ruido);
            proof {
                let paso = choose|paso: i64|
                    nuevo@ == vecino_spec(vecino, h_mutado@, gen as int, paso);
                us = us.push(u);
                pasos = pasos.push(paso);
            }
            h_mutado = nuevo;
        } else {
            proof {
                us = us.push(u);
                pasos = pasos.push(0i64);
            }
        }
        proof {
            lema_hijo_mutado_prefijo(
                inicial,
                vecino,
                tasa,
                us_previos,
                pasos_previos,
                us,
                pasos,
                gen as nat,
            );
        }
        gen += 1;
    }
    proof {
        let ghost m = h_mutado@;
        assert(m == hijo_mutado(inicial, vecino, tasa, us, pasos, inicial.len()));
    }
    h_mutado
}

/// `b` is the population `a` after the child `h` has asked for a
/// place: it stands where the worst member stood if it scores strictly
/// above it, and nothing else has changed.
pub open spec fn colocado(e: Seq<Dato>, a: Seq<Individuo>, h: Seq<u64>, b: Seq<Individuo>) -> bool {
    exists|p: int|
        {
            &&& #[trigger] es_peor(a, p)
            &&& b.len() == a.len()
            &&& forall|i: int| 0 <= i < a.len() && i != p ==> #[trigger] b[i] == a[i]
            &&& if puntuacion(e, h) > a[p].aptitud {
                b[p].pesos@ == h && b[p].aptitud == puntuacion(e, h)
            } else {
                b[p] == a[p]
            }
        }
}

/// Child `k` is mutated and asks for a place in population `k`, which
/// gives population `k + 1`.
pub open spec fn eslabon_de_hijos(
    e: Seq<Dato>,
    vecino: Vecino,
    tasa: u64,
    hs: Seq<Seq<u64>>,
    ms: Seq<Seq<u64>>,
    estados: Seq<Seq<Individuo>>,
    k: int,
) -> bool {
    es_hijo_mutado(hs[k], vecino, tasa, ms[k]) && colocado(e, estados[k], ms[k], estados[k + 1])
}

/// The four positions drawn for the two tournaments of an iteration.
pub ghost struct Sorteo {
    pub i_1a: int,
    pub i_1b: int,
    pub i_2a: int,
    pub i_2b: int,
}

/// The first parent that the draw gives in the population `a`.
pub open spec fn primer_padre(a: Seq<Individuo>, s: Sorteo) -> int {
    ganador(a, s.i_1a, s.i_1b)
}

/// The second parent that the draw gives in the population `a`.
pub open spec fn segundo_padre(a: Seq<Individuo>, s: Sorteo) -> int {
    ganador(a, s.i_2a, s.i_2b)
}

/// `b` may follow `a` after one iteration of the steady-state
/// algorithm: for some four positions drawn, the winners of the two
/// tournaments are crossed, and the children, one after the other, are
/// mutated at the rate that the two winners give and ask for a place.
pub open spec fn es_iteracion_estacionaria(
    e: Seq<Dato>,
    cruce: Cruce,
    vecino: Vecino,
    a: Seq<Individuo>,
    b: Seq<Individuo>,
) -> bool {
    exists|s: Sorteo, hs: Seq<Seq<u64>>, ms: Seq<Seq<u64>>, estados: Seq<Seq<Individuo>>|
        #![trigger hijos_posibles(cruce, a[primer_padre(a, s)].pesos@, a[segundo_padre(a, s)].pesos@, hs), ms.len(), estados.len()]
        {
            &&& 0 <= s.i_1a < a.len() && 0 <= s.i_1b < a.len()
            &&& 0 <= s.i_2a < a.len() && 0 <= s.i_2b < a.len()
            &&& hijos_posibles(
                cruce,
                a[primer_padre(a, s)].pesos@,
                a[segundo_padre(a, s)].pesos@,
                hs,
            )
            &&& ms.len() == hs.len()
            &&& estados.len() == hs.len() + 1
            &&& estados[0] == a
            &&& estados[hs.len() as int] == b
            &&& forall|k: int|
                0 <= k < hs.len() ==> #[trigger] eslabon_de_hijos(
                    e,
                    vecino,
                    tasa_para(primer_padre(a, s), segundo_padre(a, s)),
                    hs,
                    ms,
                    estados,
                    k,
                )
        }
}

/// The child `h` asks for a place: it is evaluated, and it takes the
/// place of the worst member, the one at `peor`, if it scores strictly
/// above it.  Returns the position of the worst member afterwards.
pub fn colocar(
    entrenamiento: &[Dato],
    poblacion: &mut Vec<Individuo>,
    peor: usize,
    h: Vec<u64>,
) -> (r: usize)
    requires
        muestra_valida(entrenamiento@),
        pesos_validos(entrenamiento@, h@),
        evaluados(old(poblacion)@, entrenamiento@),
        es_peor(old(poblacion)@, peor as int),
    ensures
        colocado(entrenamiento@, old(poblacion)@, h@, final(poblacion)@),
        final(poblacion)@.len() == old(poblacion)@.len(),
        evaluados(final(poblacion)@, entrenamiento@),
        es_peor(final(poblacion)@, r as int),
        forall|i: int|
            0 <= i < old(poblacion)@.len() ==> (#[trigger] final(poblacion)@[i]).aptitud >= old(
                poblacion,
            )@[i].aptitud,
{
    let ghost e = entrenamiento@;
    let ghost antes = poblacion@;
    proof {
        lema_muestra_evaluable(e, h@);
    }
    let ev_h: u64 = evaluar(entrenamiento, h.as_slice());
    if ev_h > poblacion[peor].aptitud {
        poblacion.set(peor, Individuo { pesos: h, aptitud: ev_h });
        proof {
            assert forall|i: int| 0 <= i < poblacion@.len() implies pesos_validos(
                e,
                (#[trigger] poblacion@[i]).pesos@,
            ) && poblacion@[i].aptitud == puntuacion(e, poblacion@[i].pesos@)
                && poblacion@[i].aptitud >= antes[i].aptitud by {
                if i != peor {
                    assert(poblacion@[i] == antes[i]);
                }
            }
            assert(es_peor(antes, peor as int));
        }
        encontrar_peor(poblacion)
    } else {
        assert(es_peor(antes, peor as int));
        peor
    }
}

/// One iteration of the steady-state algorithm.  Two pairs of random
/// members meet in tournaments and the winners are crossed; each child
/// is mutated, evaluated, and takes the place of the worst member if it
/// scores strictly above it.  No member's place gets a lower score.
pub fn iteracion_estacionaria<R: Ruido>(
    entrenamiento: &[Dato],
    poblacion: &mut Vec<Individuo>,
    cruce: Cruce,
    vecino: Vecino,
    n_evaluaciones: &mut usize,
    rng: &mut Isaac64Rng,
    ruido: &R,
)
    requires
        muestra_valida(entrenamiento@),
        old(poblacion)@.len() > 0,
        evaluados(old(poblacion)@, entrenamiento@),
        *old(n_evaluaciones) <= usize::MAX - 2,
    ensures
        final(poblacion)@.len() == old(poblacion)@.len(),
        evaluados(final(poblacion)@, entrenamiento@),
        forall|i: int|
            0 <= i < old(poblacion)@.len() ==> (#[trigger] final(poblacion)@[i]).aptitud >= old(
                poblacion,
            )@[i].aptitud,
        *old(n_evaluaciones) < *final(n_evaluaciones) <= *old(n_evaluaciones) + 2,
        *final(n_evaluaciones) == *old(n_evaluaciones) + (if cruce == Cruce::Blx03 {
            2int
        } else {
            1int
        }),
        es_iteracion_estacionaria(
            entrenamiento@,
            cruce,
            vecino,
            old(poblacion)@,
            final(poblacion)@,
        ),
{
    let ghost e = entrenamiento@;
    let ghost antes = poblacion@;
    let tam: usize = poblacion.len();
    let i_1a: usize = entero_en_rango(rng, 0, tam);
    let i_1b: usize = entero_en_rango(rng, 0, tam);
    let i_2a: usize = entero_en_rango(rng, 0, tam);
    let i_2b: usize = entero_en_rango(rng, 0, tam);
    let ghost sorteo = Sorteo {
        i_1a: i_1a as int,
        i_1b: i_1b as int,
        i_2a: i_2a as int,
        i_2b: i_2b as int,
    };
    let (padre1, padre2, tasa_mutacion) = elegir_padres(poblacion, i_1a, i_1b, i_2a, i_2b);
    assert(padre1 == primer_padre(antes, sorteo) && padre2 == segundo_padre(antes, sorteo));
    assert(pesos_validos(e, poblacion@[padre1 as int].pesos@));
    assert(pesos_validos(e, poblacion@[padre2 as int].pesos@));
    let hijos = cruzar_padres(
        cruce,
        poblacion[padre1].pesos.as_slice(),
        poblacion[padre2].pesos.as_slice(),
        rng,
    );
    let mut peor: usize = encontrar_peor(poblacion);
    let mut h: usize = 0;
    let ghost hs: Seq<Seq<u64>> = Seq::new(hijos@.len(), |k: int| hijos@[k]@);
    let ghost mut ms: Seq<Seq<u64>> = Seq::empty();
    let ghost mut estados: Seq<Seq<Individuo>> = seq![antes];
    assert(hijos_posibles(
        cruce,
        antes[padre1 as int].pesos@,
        antes[padre2 as int].pesos@,
        hs,
    ));
    while h < hijos.len()
        invariant
            h <= hijos@.len() <= 2,
            hs.len() == hijos@.len(),
            forall|k: int| 0 <= k < hs.len() ==> #[trigger] hs[k] == hijos@[k]@,
            ms.len() == h,
            estados.len() == h + 1,
            estados[0] == antes,
            estados[h as int] == poblacion@,
            forall|k: int|
                0 <= k < h ==> #[trigger] eslabon_de_hijos(
                    e,
                    vecino,
                    tasa_mutacion,
                    hs,
                    ms,
                    estados,
                    k,
                ),
            e == entrenamiento@,
            muestra_valida(e),
            forall|k: int| 0 <= k < hijos@.len() ==> pesos_validos(e, (#[trigger] hijos@[k])@),
            poblacion@.len() == antes.len(),
            evaluados(poblacion@, e),
            es_peor(poblacion@, peor as int),
            forall|i: int|
                0 <= i < antes.len() ==> (#[trigger] poblacion@[i]).aptitud >= antes[i].aptitud,
            *n_evaluaciones == *old(n_evaluaciones) + h,
            *old(n_evaluaciones) <= usize::MAX - 2,
        decreases hijos@.len() - h,
    {
        let hijo = hijos[h].clone();
        assert(hijo@ == hijos@[h as int]@);
        let h_mutado = mutar_hijo(hijo, vecino, tasa_mutacion, rng, ruido);
        *n_evaluaciones = *n_evaluaciones + 1;
        let ghost mutado = h_mutado@;
        let ghost encontrada = poblacion@;
        let ghost ms_previos = ms;
        let ghost estados_previos = estados;
        peor = colocar(entrenamiento, poblacion, peor, h_mutado);
        proof {
            ms = ms.push(mutado);
            estados = estados.push(poblacion@);
            assert(colocado(e, encontrada, mutado, poblacion@));
            assert(es_hijo_mutado(hs[h as int], vecino, tasa_mutacion, mutado));
            assert forall|k: int| 0 <= k < h + 1 implies #[trigger] eslabon_de_hijos(
                e,
                vecino,
                tasa_mutacion,
                hs,
                ms,
                estados,
                k,
            ) by {
                if k < h {
                    assert(eslabon_de_hijos(
                        e,
                        vecino,
                        tasa_mutacion,
                        hs,
                        ms_previos,
                        estados_previos,
                        k,
                    ));
                    assert(ms[k] == ms_previos[k]);
                    assert(estados[k] == estados_previos[k]);
                    assert(estados[k + 1] == estados_previos[k + 1]);
                }
            }
            assert forall|i: int| 0 <= i < antes.len() implies (#[trigger] poblacion@[i]).aptitud
                >= antes[i].aptitud by {
                assert(encontrada[i].aptitud >= antes[i].aptitud);
            }
        }
        h += 1;
    }
    proof {
        assert(hijos_posibles(
            cruce,
            antes[primer_padre(antes, sorteo)].pesos@,
            antes[segundo_padre(antes, sorteo)].pesos@,
            hs,
        ));
        assert(ms.len() == hs.len() && estados.len() == hs.len() + 1);
        assert(tasa_mutacion == tasa_para(
            primer_padre(antes, sorteo),
            segundo_padre(antes, sorteo),
        ));
    }
}

/// `p` may be the first population of a steady-state run: each member
/// is a first solution of the kind `gen_iniciales`, with its score.
pub open spec fn es_poblacion_inicial_estacionaria(
    e: Seq<Dato>,
    gen_iniciales: Inicial,
    p: Seq<Individuo>,
) -> bool {
    &&& evaluados(p, e)
    &&& forall|i: int|
        0 <= i < p.len() ==> {
            &&& normalizado((#[trigger] p[i]).pesos@) || todo_cero(p[i].pesos@)
            &&& gen_iniciales == Inicial::Relief ==> p[i].pesos@ == relief_spec(e)
        }
}

/// Population `k + 1` follows population `k` after one iteration.
pub open spec fn eslabon_estacionario(
    e: Seq<Dato>,
    cruce: Cruce,
    vecino: Vecino,
    poblaciones: Seq<Seq<Individuo>>,
    k: int,
) -> bool {
    es_iteracion_estacionaria(e, cruce, vecino, poblaciones[k], poblaciones[k + 1])
}

/// The populations of a steady-state run, iteration by iteration, from
/// a first population of `tamano` members.
pub open spec fn cadena_estacionaria(
    e: Seq<Dato>,
    gen_iniciales: Inicial,
    cruce: Cruce,
    vecino: Vecino,
    tamano: nat,
    poblaciones: Seq<Seq<Individuo>>,
) -> bool {
    &&& poblaciones.len() >= 2
    &&& es_poblacion_inicial_estacionaria(e, gen_iniciales, poblaciones[0])
    &&& poblaciones[0].len() == tamano
    &&& forall|k: int|
        0 <= k < poblaciones.len() - 1 ==> #[trigger] eslabon_estacionario(
            e,
            cruce,
            vecino,
            poblaciones,
            k,
        )
}

/// The evaluations after `iteraciones` iterations from a population of
/// `tamano` members: one for each member, and one for each child.
pub open spec fn evaluaciones_estacionarias(cruce: Cruce, tamano: nat, iteraciones: nat) -> nat {
    if cruce == Cruce::Blx03 {
        tamano + 2 * iteraciones
    } else {
        tamano + iteraciones
    }
}

/// `f` may be the last population of a steady-state run from the
/// population `inicial` that made `n` evaluations: the run stops with
/// the first iteration after which the evaluations have reached
/// `max_evaluaciones`.  At no position does `f` score below `inicial`.
pub open spec fn es_evolucion_estacionaria(
    e: Seq<Dato>,
    gen_iniciales: Inicial,
    cruce: Cruce,
    vecino: Vecino,
    tamano: nat,
    max_evaluaciones: nat,
    inicial: Seq<Individuo>,
    f: Seq<Individuo>,
    n: nat,
) -> bool {
    exists|poblaciones: Seq<Seq<Individuo>>|
        {
            &&& #[trigger] cadena_estacionaria(e, gen_iniciales, cruce, vecino, tamano, poblaciones)
            &&& poblaciones[0] == inicial
            &&& poblaciones[poblaciones.len() - 1] == f
            &&& f.len() == tamano
            &&& forall|i: int| 0 <= i < tamano ==> (#[trigger] f[i]).aptitud >= inicial[i].aptitud
            &&& n == evaluaciones_estacionarias(cruce, tamano, (poblaciones.len() - 1) as nat)
            &&& n >= max_evaluaciones
            &&& poblaciones.len() > 2 ==> evaluaciones_estacionarias(
                cruce,
                tamano,
                (poblaciones.len() - 2) as nat,
            ) < max_evaluaciones
        }
}

/// `w` may be the result of a steady-state run: the best member of its
/// last population, the last of them if several score the same.  It
/// scores no less than any member of the first population.
pub open spec fn es_resultado_estacionario(
    e: Seq<Dato>,
    gen_iniciales: Inicial,
    cruce: Cruce,
    vecino: Vecino,
    tamano: nat,
    max_evaluaciones: nat,
    w: Seq<u64>,
) -> bool {
    exists|inicial: Seq<Individuo>, f: Seq<Individuo>, n: nat, m: int|
        {
            &&& #[trigger] es_evolucion_estacionaria(
                e,
                gen_iniciales,
                cruce,
                vecino,
                tamano,
                max_evaluaciones,
                inicial,
                f,
                n,
            )
            &&& #[trigger] es_mejor(f, m)
            &&& w == f[m].pesos@
            &&& forall|i: int|
                0 <= i < tamano ==> puntuacion(e, w) >= (#[trigger] inicial[i]).aptitud
        }
}

/// A chain of populations goes on with one that follows its last.
proof fn lema_extender_estacionaria(
    e: Seq<Dato>,
    cruce: Cruce,
    vecino: Vecino,
    poblaciones: Seq<Seq<Individuo>>,
    b: Seq<Individuo>,
)
    requires
        poblaciones.len() >= 1,
        forall|k: int|
            0 <= k < poblaciones.len() - 1 ==> #[trigger] eslabon_estacionario(
                e,
                cruce,
                vecino,
                poblaciones,
                k,
            ),
        es_iteracion_estacionaria(e, cruce, vecino, poblaciones[poblaciones.len() - 1], b),
    ensures
        forall|k: int|
            0 <= k < poblaciones.len() ==> #[trigger] eslabon_estacionario(
                e,
                cruce,
                vecino,
                poblaciones.push(b),
                k,
            ),
{
    let nuevas = poblaciones.push(b);
    assert forall|k: int| 0 <= k < poblaciones.len() implies #[trigger] eslabon_estacionario(
        e,
        cruce,
        vecino,
        nuevas,
        k,
    ) by {
        if k < poblaciones.len() - 1 {
            assert(eslabon_estacionario(e, cruce, vecino, poblaciones, k));
            assert(nuevas[k] == poblaciones[k] && nuevas[k + 1] == poblaciones[k + 1]);
        } else {
            assert(nuevas[k] == poblaciones[k] && nuevas[k + 1] == b);
        }
    }
}

/// The run of the steady-state genetic algorithm, with its last
/// population and its count of evaluations.  The population has
/// `tamano` members.  Iterations follow one another until the count
/// reaches `max_evaluaciones`: the iteration during which it does is the
/// last, and one iteration is made in any case.
pub fn evolucionar_estacionario<R: Ruido>(
    entrenamiento: &[Dato],
    gen_iniciales: Inicial,
    cruce: Cruce,
    vecino: Vecino,
    tamano: usize,
    max_evaluaciones: usize,
    rng: &mut Isaac64Rng,
    ruido: &R,
) -> (r: (Vec<Individuo>, usize))
    requires
        muestra_valida(entrenamiento@),
        gen_iniciales == Inicial::Relief ==> relief_aplicable(entrenamiento@),
        tamano >= 1,
        tamano <= usize::MAX - 2,
        max_evaluaciones <= usize::MAX - 2,
    ensures
        r.0@.len() == tamano,
        evaluados(r.0@, entrenamiento@),
        r.1 >= max_evaluaciones,
        r.1 > tamano,
        r.1 <= max_evaluaciones + 1 || r.1 <= tamano + 2,
        cruce != Cruce::Blx03 && tamano < max_evaluaciones ==> r.1 == max_evaluaciones,
        gen_iniciales == Inicial::Relief ==> r.0@[0].aptitud >= puntuacion(
            entrenamiento@,
            relief_spec(entrenamiento@),
        ),
        exists|inicial: Seq<Individuo>|
            #[trigger] es_evolucion_estacionaria(
                entrenamiento@,
                gen_iniciales,
                cruce,
                vecino,
                tamano as nat,
                max_evaluaciones as nat,
                inicial,
                r.0@,
                r.1 as nat,
            ),
{
    let ghost e = entrenamiento@;
    let mut poblacion: Vec<Individuo> = Vec::new();
    let mut i: usize = 0;
    while i < tamano
        invariant
            i <= tamano,
            e == entrenamiento@,
            muestra_valida(e),
            gen_iniciales == Inicial::Relief ==> relief_aplicable(e),
            poblacion@.len() == i,
            evaluados(poblacion@, e),
            gen_iniciales == Inicial::Relief && i > 0 ==> poblacion@[0].aptitud == puntuacion(
                e,
                relief_spec(e),
            ),
            es_poblacion_inicial_estacionaria(e, gen_iniciales, poblacion@),
        decreases tamano - i,
    {
        let cromosoma = generar_inicial(gen_iniciales, entrenamiento, rng);
        proof {
            lema_muestra_evaluable(e, cromosoma@);
        }
        let a: u64 = evaluar(entrenamiento, cromosoma.as_slice());
        let ghost previa = poblacion@;
        poblacion.push(Individuo { pesos: cromosoma, aptitud: a });
        proof {
            assert forall|k: int| 0 <= k < poblacion@.len() implies pesos_validos(
                e,
                (#[trigger] poblacion@[k]).pesos@,
            ) && poblacion@[k].aptitud == puntuacion(e, poblacion@[k].pesos@) by {
                if k < i {
                    assert(poblacion@[k] == previa[k]);
                }
            }
        }
        i += 1;
    }
    let mut n_evaluaciones: usize = tamano;
    let mut fin = false;
    let ghost mut poblaciones: Seq<Seq<Individuo>> = seq![poblacion@];
    while !fin
        invariant
            e == entrenamiento@,
            poblaciones.len() >= 1,
            !fin ==> poblaciones.len() == 1 || n_evaluaciones < max_evaluaciones,
            fin ==> poblaciones.len() >= 2,
            es_poblacion_inicial_estacionaria(e, gen_iniciales, poblaciones[0]),
            poblaciones[0].len() == tamano,
            poblaciones[poblaciones.len() - 1] == poblacion@,
            forall|i: int|
                0 <= i < tamano ==> (#[trigger] poblacion@[i]).aptitud >= poblaciones[0][i].aptitud,
            forall|k: int|
                0 <= k < poblaciones.len() - 1 ==> #[trigger] eslabon_estacionario(
                    e,
                    cruce,
                    vecino,
                    poblaciones,
                    k,
                ),
            n_evaluaciones == evaluaciones_estacionarias(
                cruce,
                tamano as nat,
                (poblaciones.len() - 1) as nat,
            ),
            fin && poblaciones.len() > 2 ==> evaluaciones_estacionarias(
                cruce,
                tamano as nat,
                (poblaciones.len() - 2) as nat,
            ) < max_evaluaciones,
            cruce != Cruce::Blx03 && tamano < max_evaluaciones ==> n_evaluaciones
                <= max_evaluaciones,
            muestra_valida(e),
            poblacion@.len() == tamano,
            tamano >= 1,
            tamano <= usize::MAX - 2,
            max_evaluaciones <= usize::MAX - 2,
            evaluados(poblacion@, e),
            n_evaluaciones >= tamano,
            !fin ==> n_evaluaciones < max_evaluaciones || n_evaluaciones == tamano,
            fin ==> n_evaluaciones >= max_evaluaciones && n_evaluaciones > tamano && (
            n_evaluaciones <= max_evaluaciones + 1 || n_evaluaciones <= tamano + 2),
            gen_iniciales == Inicial::Relief ==> poblacion@[0].aptitud >= puntuacion(
                e,
                relief_spec(e),
            ),
        decreases
                (if fin {
                    0
                } else if n_evaluaciones < max_evaluaciones {
                    max_evaluaciones - n_evaluaciones + 1
                } else {
                    1
                }),
    {
        iteracion_estacionaria(
            entrenamiento,
            &mut poblacion,
            cruce,
            vecino,
            &mut n_evaluaciones,
            rng,
            ruido,
        );
        proof {
            lema_extender_estacionaria(e, cruce, vecino, poblaciones, poblacion@);
            poblaciones = poblaciones.push(poblacion@);
        }
        if n_evaluaciones >= max_evaluaciones {
            fin = true;
        }
    }
    proof {
        assert(cadena_estacionaria(
            e,
            gen_iniciales,
            cruce,
            vecino,
            tamano as nat,
            poblaciones,
        ));
        assert(es_evolucion_estacionaria(
            e,
            gen_iniciales,
            cruce,
            vecino,
            tamano as nat,
            max_evaluaciones as nat,
            poblaciones[0],
            poblacion@,
            n_evaluaciones as nat,
        ));
    }
    (poblacion, n_evaluaciones)
}

/// The steady-state genetic algorithm: the best member of the last
/// population of `evolucionar_estacionario`.
pub fn algoritmo_estacionario<R: Ruido>(
    entrenamiento: &[Dato],
    gen_iniciales: Inicial,
    cruce: Cruce,
    vecino: Vecino,
    tamano: usize,
    max_evaluaciones: usize,
    rng: &mut Isaac64Rng,
    ruido: &R,
) -> (w: Vec<u64>)
    requires
        muestra_valida(entrenamiento@),
        gen_iniciales == Inicial::Relief ==> relief_aplicable(entrenamiento@),
        tamano >= 1,
        tamano <= usize::MAX - 2,
        max_evaluaciones <= usize::MAX - 2,
    ensures
        pesos_validos(entrenamiento@, w@),
        gen_iniciales == Inicial::Relief ==> puntuacion(entrenamiento@, w@) >= puntuacion(
            entrenamiento@,
            relief_spec(entrenamiento@),
        ),
        es_resultado_estacionario(
            entrenamiento@,
            gen_iniciales,
            cruce,
            vecino,
            tamano as nat,
            max_evaluaciones as nat,
            w@,
        ),
{
    let (poblacion, _n_evaluaciones) = evolucionar_estacionario(
        entrenamiento,
        gen_iniciales,
        cruce,
        vecino,
        tamano,
        max_evaluaciones,
        rng,
        ruido,
    );
    let m: usize = encontrar_mejor(&poblacion);
    let w = poblacion[m].pesos.clone();
    assert(w@ == poblacion@[m as int].pesos@);
    proof {
        let e = entrenamiento@;
        let inicial = choose|inicial: Seq<Individuo>|
            #[trigger] es_evolucion_estacionaria(
                e,
                gen_iniciales,
                cruce,
                vecino,
                tamano as nat,
                max_evaluaciones as nat,
                inicial,
                poblacion@,
                _n_evaluaciones as nat,
            );
        assert(es_mejor(poblacion@, m as int));
        assert forall|i: int| 0 <= i < tamano implies puntuacion(e, w@) >= (
        #[trigger] inicial[i]).aptitud by {
            assert(poblacion@[i].aptitud >= inicial[i].aptitud);
            assert(poblacion@[m as int].aptitud >= poblacion@[i].aptitud);
        }
    }
    w
}

/// The steady-state genetic algorithm with the standard population size and budget.
pub fn genetico_estacionario<R: Ruido>(
    entrenamiento: &[Dato],
    gen_iniciales: Inicial,
    cruce: Cruce,
    vecino: Vecino,
    rng: &mut Isaac64Rng,
    ruido: &R,
) -> (w: Vec<u64>)
    requires
        muestra_valida(entrenamiento@),
        gen_iniciales == Inicial::Relief ==> relief_aplicable(entrenamiento@),
    ensures
        pesos_validos(entrenamiento@, w@),
        gen_iniciales == Inicial::Relief ==> puntuacion(entrenamiento@, w@) >= puntuacion(
            entrenamiento@,
            relief_spec(entrenamiento@),
        ),
        es_resultado_estacionario(
            entrenamiento@,
            gen_iniciales,
            cruce,
            vecino,
            TAMANO_ESTACIONARIO as nat,
            MAX_EVALUACIONES as nat,
            w@,
        ),
{
    algoritmo_estacionario(
        entrenamiento,
        gen_iniciales,
        cruce,
        vecino,
        TAMANO_ESTACIONARIO,
        MAX_EVALUACIONES,
        rng,
        ruido,
    )
}


/// Generations between two applications of the memetic operator.
pub const GENERACIONES_MEMETICO: usize = 10;

/// The genetic algorithm with generations and the BLX crossover.
pub fn agg_blx<R: Ruido>(entrenamiento: &[Dato], rng: &mut Isaac64Rng, ruido: &R) -> (w: Vec<u64>)
    requires
        muestra_valida(entrenamiento@),
        TAMANO_GENERACIONAL * num_atributos(entrenamiento@) <= usize::MAX,
    ensures
        pesos_validos(entrenamiento@, w@),
        es_resultado_generacional(
            entrenamiento@,
            Inicial::VectorAu,
            Cruce::Blx03,
            Vecino::Bl,
            (GENERACIONES_SIN_MEMETICO, OperadorMemetico::Nada),
            TAMANO_GENERACIONAL as nat,
            MAX_EVALUACIONES as nat,
            w@,
        ),
{
    genetico_generacional(entrenamiento, Inicial::VectorAu, Cruce::Blx03, Vecino::Bl, rng, ruido)
}

/// The genetic algorithm with generations and the arithmetic crossover.
pub fn agg_ca<R: Ruido>(entrenamiento: &[Dato], rng: &mut Isaac64Rng, ruido: &R) -> (w: Vec<u64>)
    requires
        muestra_valida(entrenamiento@),
        TAMANO_GENERACIONAL * num_atributos(entrenamiento@) <= usize::MAX,
    ensures
        pesos_validos(entrenamiento@, w@),
        es_resultado_generacional(
            entrenamiento@,
            Inicial::VectorAu,
            Cruce::Aritmetico,
            Vecino::Bl,
            (GENERACIONES_SIN_MEMETICO, OperadorMemetico::Nada),
            TAMANO_GENERACIONAL as nat,
            MAX_EVALUACIONES as nat,
            w@,
        ),
{
    genetico_generacional(entrenamiento, Inicial::VectorAu, Cruce::Aritmetico, Vecino::Bl, rng, ruido)
}

/// The steady-state genetic algorithm with the BLX crossover.
pub fn age_blx<R: Ruido>(entrenamiento: &[Dato], rng: &mut Isaac64Rng, ruido: &R) -> (w: Vec<u64>)
    requires
        muestra_valida(entrenamiento@),
    ensures
        pesos_validos(entrenamiento@, w@),
        es_resultado_estacionario(
            entrenamiento@,
            Inicial::VectorAu,
            Cruce::Blx03,
            Vecino::Bl,
            TAMANO_ESTACIONARIO as nat,
            MAX_EVALUACIONES as nat,
            w@,
        ),
{
    genetico_estacionario(entrenamiento, Inicial::VectorAu, Cruce::Blx03, Vecino::Bl, rng, ruido)
}

/// The steady-state genetic algorithm with the arithmetic crossover.
pub fn age_ca<R: Ruido>(entrenamiento: &[Dato], rng: &mut Isaac64Rng, ruido: &R) -> (w: Vec<u64>)
    requires
        muestra_valida(entrenamiento@),
    ensures
        pesos_validos(entrenamiento@, w@),
        es_resultado_estacionario(
            entrenamiento@,
            Inicial::VectorAu,
            Cruce::Aritmetico,
            Vecino::Bl,
            TAMANO_ESTACIONARIO as nat,
            MAX_EVALUACIONES as nat,
            w@,
        ),
{
    genetico_estacionario(entrenamiento, Inicial::VectorAu, Cruce::Aritmetico, Vecino::Bl, rng, ruido)
}

/// The memetic algorithm that every ten generations runs a local search on
/// every individual.
pub fn am_a<R: Ruido>(entrenamiento: &[Dato], rng: &mut Isaac64Rng, ruido: &R) -> (w: Vec<u64>)
    requires
        muestra_valida(entrenamiento@),
        TAMANO_GENERACIONAL * num_atributos(entrenamiento@) <= usize::MAX,
    ensures
        pesos_validos(entrenamiento@, w@),
        es_resultado_generacional(
            entrenamiento@,
            Inicial::VectorAu,
            Cruce::Blx03,
            Vecino::Bl,
            (GENERACIONES_MEMETICO, OperadorMemetico::BlTodos),
            TAMANO_GENERACIONAL as nat,
            MAX_EVALUACIONES as nat,
            w@,
        ),
{
    memetico_generacional(
        entrenamiento,
        Inicial::VectorAu,
        Cruce::Blx03,
        Vecino::Bl,
        (GENERACIONES_MEMETICO, OperadorMemetico::BlTodos),
        rng,
        ruido,
    )
}

/// The memetic algorithm that every ten generations runs a local search on
/// each individual with probability a tenth.
pub fn am_b<R: Ruido>(entrenamiento: &[Dato], rng: &mut Isaac64Rng, ruido: &R) -> (w: Vec<u64>)
    requires
        muestra_valida(entrenamiento@),
        TAMANO_GENERACIONAL * num_atributos(entrenamiento@) <= usize::MAX,
    ensures
        pesos_validos(entrenamiento@, w@),
        es_resultado_generacional(
            entrenamiento@,
            Inicial::VectorAu,
            Cruce::Blx03,
            Vecino::Bl,
            (GENERACIONES_MEMETICO, OperadorMemetico::Bl01),
            TAMANO_GENERACIONAL as nat,
            MAX_EVALUACIONES as nat,
            w@,
        ),
{
    memetico_generacional(
        entrenamiento,
        Inicial::VectorAu,
        Cruce::Blx03,
        Vecino::Bl,
        (GENERACIONES_MEMETICO, OperadorMemetico::Bl01),
        rng,
        ruido,
    )
}

/// The memetic algorithm that every ten generations runs a local search on
/// the best tenth of the individuals.
pub fn am_c<R: Ruido>(entrenamiento: &[Dato], rng: &mut Isaac64Rng, ruido: &R) -> (w: Vec<u64>)
    requires
        muestra_valida(entrenamiento@),
        TAMANO_GENERACIONAL * num_atributos(entrenamiento@) <= usize::MAX,
    ensures
        pesos_validos(entrenamiento@, w@),
        es_resultado_generacional(
            entrenamiento@,
            Inicial::VectorAu,
            Cruce::Blx03,
            Vecino::Bl,
            (GENERACIONES_MEMETICO, OperadorMemetico::Bl01Mej),
            TAMANO_GENERACIONAL as nat,
            MAX_EVALUACIONES as nat,
            w@,
        ),
{
    memetico_generacional(
        entrenamiento,
        Inicial::VectorAu,
        Cruce::Blx03,
        Vecino::Bl,
        (GENERACIONES_MEMETICO, OperadorMemetico::Bl01Mej),
        rng,
        ruido,
    )
}

/// The steady-state genetic algorithm with the alternative arithmetic
/// crossover.
pub fn age_ca_alt<R: Ruido>(entrenamiento: &[Dato], rng: &mut Isaac64Rng, ruido: &R) -> (w: Vec<u64>)
    requires
        muestra_valida(entrenamiento@),
    ensures
        pesos_validos(entrenamiento@, w@),
        es_resultado_estacionario(
            entrenamiento@,
            Inicial::VectorAu,
            Cruce::AritmeticoAlt,
            Vecino::Bl,
            TAMANO_ESTACIONARIO as nat,
            MAX_EVALUACIONES as nat,
            w@,
        ),
{
    genetico_estacionario(
        entrenamiento,
        Inicial::VectorAu,
        Cruce::AritmeticoAlt,
        Vecino::Bl,
        rng,
        ruido,
    )
}

/// The genetic algorithm with generations, the BLX crossover and the
/// alternative neighbour operator for mutation.
pub fn agg_blx_mut2<R: Ruido>(entrenamiento: &[Dato], rng: &mut Isaac64Rng, ruido: &R) -> (w: Vec<u64>)
    requires
        muestra_valida(entrenamiento@),
        TAMANO_GENERACIONAL * num_atributos(entrenamiento@) <= usize::MAX,
    ensures
        pesos_validos(entrenamiento@, w@),
        es_resultado_generacional(
            entrenamiento@,
            Inicial::VectorAu,
            Cruce::Blx03,
            Vecino::BlMut2,
            (GENERACIONES_SIN_MEMETICO, OperadorMemetico::Nada),
            TAMANO_GENERACIONAL as nat,
            MAX_EVALUACIONES as nat,
            w@,
        ),
{
    genetico_generacional(entrenamiento, Inicial::VectorAu, Cruce::Blx03, Vecino::BlMut2, rng, ruido)
}

/// The steady-state genetic algorithm with the BLX crossover and the
/// alternative neighbour operator for mutation.
pub fn age_blx_mut2<R: Ruido>(entrenamiento: &[Dato], rng: &mut Isaac64Rng, ruido: &R) -> (w: Vec<u64>)
    requires
        muestra_valida(entrenamiento@),
    ensures
        pesos_validos(entrenamiento@, w@),
        es_resultado_estacionario(
            entrenamiento@,
            Inicial::VectorAu,
            Cruce::Blx03,
            Vecino::BlMut2,
            TAMANO_ESTACIONARIO as nat,
            MAX_EVALUACIONES as nat,
            w@,
        ),
{
    genetico_estacionario(entrenamiento, Inicial::VectorAu, Cruce::Blx03, Vecino::BlMut2, rng, ruido)
}

/// The memetic algorithm that every ten generations applies the best affine
/// rescaling to each individual with probability a tenth.
pub fn am_afinidad_01<R: Ruido>(entrenamiento: &[Dato], rng: &mut Isaac64Rng, ruido: &R) -> (w: Vec<
    u64,
>)
    requires
        muestra_valida(entrenamiento@),
        TAMANO_GENERACIONAL * num_atributos(entrenamiento@) <= usize::MAX,
    ensures
        pesos_validos(entrenamiento@, w@),
        es_resultado_generacional(
            entrenamiento@,
            Inicial::VectorAu,
            Cruce::Blx03,
            Vecino::Bl,
            (GENERACIONES_MEMETICO, OperadorMemetico::Af01),
            TAMANO_GENERACIONAL as nat,
            MAX_EVALUACIONES as nat,
            w@,
        ),
{
    memetico_generacional(
        entrenamiento,
        Inicial::VectorAu,
        Cruce::Blx03,
        Vecino::Bl,
        (GENERACIONES_MEMETICO, OperadorMemetico::Af01),
        rng,
        ruido,
    )
}

} // verus!
