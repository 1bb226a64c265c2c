//! Trajectory searches: simulated annealing, iterated local search and
//! differential evolution.

use vstd::prelude::*;
use rand::Isaac64Rng;
use crate::aleatorio::{Ruido, uniforme, entero_en_rango, permutacion_aleatoria, aleatorio_distinto};
use crate::fijo::{
    UNO, CIEN, a_escala, ceros, esta_a_escala, lema_ceros, normalizado, todo_cero, recortar_spec,
    recortar_suma,
};
use crate::knn::Dato;
use crate::poblacion::Individuo;
use crate::evaluacion_pesos::{
    evaluar, muestra_valida, pesos_validos, puntuacion, num_atributos, lema_muestra_evaluable,
};
use crate::funciones_practica1::{
    Vecino, Inicial, Refinamiento, aplicar_vecino, generar_inicial, refinar, normalizar,
    normalizar_spec, lema_normalizar, busqueda_local_generica_desde,
    relief_aplicable, relief_spec, vecino_spec, normal_o_sobre_cero, es_resultado_local, es_refinado,
};

verus! {

/// Evaluations of the objective function that each algorithm may make.
pub const MAX_EVALUACIONES: usize = 15000;

/// Evaluations that each local search of the iterated local search may make.
pub const MAX_EVALUACIONES_BL: usize = 1000;

/// A number of passes that no local search reaches: only the evaluations stop it.
pub const MAX_CICLOS_BL: usize = 100000000;

/// Neighbours tried at each temperature, per attribute.
pub const FACTOR_VECINOS_ES: usize = 10;

/// The largest temperature that the cooling schedules handle: 2000.
/// The Cauchy schedule multiplies three temperatures and the number of
/// coolings, and with each of them up to this bound the product fits
/// in the 128 bits that the machine offers.  No annealing comes near
/// it: its first temperature is a quarter of a score, which is at most
/// a hundred, and no later one is higher.
pub const TEMPERATURA_MAXIMA: u64 = 2_000_000_000;

/// The largest number of coolings that the schedules handle, for the
/// same reason as `TEMPERATURA_MAXIMA`.  There are never more coolings
/// than evaluations.
pub const ITERACIONES_MAXIMAS: usize = 2_000_000_000;

/// The final temperature, 0.001.
pub const TEMPERATURA_FINAL: u64 = 1000;

/// The initial temperature is this fraction of the initial score:
/// -0.3 / ln 0.3, so that a solution worse by three tenths of the score is
/// accepted with probability 0.3.
pub const FACTOR_TEMPERATURA: u64 = 249_175;

/// The temperature that follows `actual` in the modified Cauchy schedule
/// that goes from `t_inicial` to `t_final` in `num_iteraciones` steps:
/// `actual / (1 + b * actual)` with `b = (t_inicial - t_final) /
/// (num_iteraciones * t_inicial * t_final)`, rounded down.  Where that
/// quotient has no positive denominator the temperature stays.
pub open spec fn enfriamiento_cauchy_spec(
    actual: u64,
    t_inicial: u64,
    t_final: u64,
    num_iteraciones: usize,
) -> int {
    let k = num_iteraciones * t_inicial * t_final;
    let den = k + (t_inicial - t_final) * actual;
    if den <= 0 {
        actual as int
    } else if actual * k / den > TEMPERATURA_MAXIMA {
        TEMPERATURA_MAXIMA as int
    } else {
        actual * k / den
    }
}

/// One step of the modified Cauchy cooling schedule.
pub fn enfriamiento_cauchy(actual: u64, t_inicial: u64, t_final: u64, num_iteraciones: usize) -> (t:
    u64)
    requires
        actual <= TEMPERATURA_MAXIMA,
        t_inicial <= TEMPERATURA_MAXIMA,
        t_final <= TEMPERATURA_MAXIMA,
        num_iteraciones <= ITERACIONES_MAXIMAS,
    ensures
        t == enfriamiento_cauchy_spec(actual, t_inicial, t_final, num_iteraciones),
        t <= TEMPERATURA_MAXIMA,
        t_inicial >= t_final ==> t <= actual,
{
    let n: i128 = num_iteraciones as i128;
    let t0: i128 = t_inicial as i128;
    let tf: i128 = t_final as i128;
    let a: i128 = actual as i128;
    proof {
        assert(0 <= n * t0 <= 2_000_000_000 * 2_000_000_000) by (nonlinear_arith)
            requires
                0 <= n <= 2_000_000_000,
                0 <= t0 <= 2_000_000_000,
        ;
        assert(0 <= n * t0 * tf <= 2_000_000_000 * 2_000_000_000 * 2_000_000_000)
            by (nonlinear_arith)
            requires
                0 <= n * t0 <= 2_000_000_000 * 2_000_000_000,
                0 <= tf <= 2_000_000_000,
        ;
        assert(-2_000_000_000 * 2_000_000_000 <= (t0 - tf) * a <= 2_000_000_000 * 2_000_000_000)
            by (nonlinear_arith)
            requires
                -2_000_000_000 <= t0 - tf <= 2_000_000_000,
                0 <= a <= 2_000_000_000,
        ;
    }
    let k: i128 = n * t0 * tf;
    let den: i128 = k + (t0 - tf) * a;
    if den <= 0 {
        proof {
            if t0 >= tf {
                assert((t0 - tf) * a >= 0) by (nonlinear_arith)
                    requires
                        t0 - tf >= 0,
                        a >= 0,
                ;
            }
        }
        actual
    } else {
        proof {
            assert(0 <= a * k <= 2_000_000_000 * (2_000_000_000 * 2_000_000_000 * 2_000_000_000))
                by (nonlinear_arith)
                requires
                    0 <= a <= 2_000_000_000,
                    0 <= k <= 2_000_000_000 * 2_000_000_000 * 2_000_000_000,
            ;
            assert(a * k / (den as int) >= 0) by (nonlinear_arith)
                requires
                    a * k >= 0,
                    den > 0,
            ;
            if t0 >= tf {
                assert((t0 - tf) * a >= 0) by (nonlinear_arith)
                    requires
                        t0 - tf >= 0,
                        a >= 0,
                ;
                assert(a * k / (den as int) <= a) by (nonlinear_arith)
                    requires
                        a >= 0,
                        k >= 0,
                        den >= k,
                        den > 0,
                ;
            }
        }
        let q: i128 = a * k / den;
        if q > TEMPERATURA_MAXIMA as i128 {
            TEMPERATURA_MAXIMA
        } else {
            q as u64
        }
    }
}

/// A temperature multiplied by a factor of at most one, rounded down.
pub open spec fn escalar(t: u64, factor: u64) -> u64 {
    (t * factor / (UNO as int)) as u64
}

/// The temperature reached from `t` by `n` coolings by `factor`.
pub open spec fn enfriar_veces(t: u64, factor: u64, n: nat) -> u64
    decreases n,
{
    if n == 0 {
        t
    } else {
        escalar(enfriar_veces(t, factor, (n - 1) as nat), factor)
    }
}

/// Cooling by a factor of at most one does not heat.
pub proof fn lema_escalar(t: u64, factor: u64)
    requires
        factor <= UNO,
    ensures
        0 <= t * factor / (UNO as int) <= t,
        factor == UNO ==> escalar(t, factor) == t,
{
    assert(0 <= t * factor / (UNO as int) <= t) by (nonlinear_arith)
        requires
            0 <= factor <= UNO,
            UNO == 1_000_000,
            t >= 0,
    ;
    assert(t * UNO / (UNO as int) == t) by (nonlinear_arith)
        requires
            UNO == 1_000_000,
    ;
}

/// A larger temperature or a larger factor gives no smaller result.
pub proof fn lema_enfriar_monotono(t1: u64, t2: u64, f1: u64, f2: u64, n: nat)
    requires
        t1 <= t2,
        f1 <= f2 <= UNO,
    ensures
        enfriar_veces(t1, f1, n) <= enfriar_veces(t2, f2, n),
        enfriar_veces(t2, f2, n) <= t2,
    decreases n,
{
    if n > 0 {
        lema_enfriar_monotono(t1, t2, f1, f2, (n - 1) as nat);
        let a = enfriar_veces(t1, f1, (n - 1) as nat);
        let b = enfriar_veces(t2, f2, (n - 1) as nat);
        lema_escalar(a, f1);
        lema_escalar(b, f2);
        assert(a * f1 <= b * f2) by (nonlinear_arith)
            requires
                0 <= a <= b,
                0 <= f1 <= f2,
        ;
        assert(a * f1 / (UNO as int) <= b * f2 / (UNO as int)) by (nonlinear_arith)
            requires
                a * f1 <= b * f2,
                UNO == 1_000_000,
        ;
    }
}

/// Cools `t` by `factor`, `n` times.
pub fn enfriar(t: u64, factor: u64, n: usize) -> (r: u64)
    requires
        factor <= UNO,
    ensures
        r == enfriar_veces(t, factor, n as nat),
        r <= t,
{
    let mut r: u64 = t;
    let mut i: usize = 0;
    while i < n
        invariant
            i <= n,
            factor <= UNO,
            r == enfriar_veces(t, factor, i as nat),
            r <= t,
        decreases n - i,
    {
        proof {
            lema_escalar(r, factor);
        }
        r = (r as u128 * factor as u128 / UNO as u128) as u64;
        i += 1;
    }
    r
}

/// `factor` is the largest factor by which `num_iteraciones` coolings
/// take `t_inicial` to `t_final` or below; zero if there is none.
pub open spec fn es_factor_proporcional(
    t_inicial: u64,
    t_final: u64,
    num_iteraciones: usize,
    factor: u64,
) -> bool {
    &&& factor <= UNO
    &&& factor > 0 ==> enfriar_veces(t_inicial, factor, num_iteraciones as nat) <= t_final
    &&& factor < UNO ==> enfriar_veces(t_inicial, (factor + 1) as u64, num_iteraciones as nat)
        > t_final
}

/// Only one factor is the largest.
pub proof fn lema_factor_unico(
    t_inicial: u64,
    t_final: u64,
    num_iteraciones: usize,
    f1: u64,
    f2: u64,
)
    requires
        es_factor_proporcional(t_inicial, t_final, num_iteraciones, f1),
        es_factor_proporcional(t_inicial, t_final, num_iteraciones, f2),
    ensures
        f1 == f2,
{
    let n = num_iteraciones as nat;
    if f1 < f2 {
        lema_enfriar_monotono(t_inicial, t_inicial, (f1 + 1) as u64, f2, n);
    } else if f2 < f1 {
        lema_enfriar_monotono(t_inicial, t_inicial, (f2 + 1) as u64, f1, n);
    }
}

/// The factor of the proportional cooling schedule.
pub fn factor_proporcional(t_inicial: u64, t_final: u64, num_iteraciones: usize) -> (factor: u64)
    ensures
        es_factor_proporcional(t_inicial, t_final, num_iteraciones, factor),
{
    if enfriar(t_inicial, UNO, num_iteraciones) <= t_final {
        return UNO;
    }
    let mut bajo: u64 = 0;
    let mut alto: u64 = UNO;
    while alto - bajo > 1
        invariant
            bajo < alto <= UNO,
            bajo > 0 ==> enfriar_veces(t_inicial, bajo, num_iteraciones as nat) <= t_final,
            enfriar_veces(t_inicial, alto, num_iteraciones as nat) > t_final,
        decreases alto - bajo,
    {
        let medio: u64 = bajo + (alto - bajo) / 2;
        if enfriar(t_inicial, medio, num_iteraciones) <= t_final {
            bajo = medio;
        } else {
            alto = medio;
        }
    }
    bajo
}

/// One step of the proportional cooling schedule: the temperature is
/// multiplied by the factor that takes `t_inicial` to `t_final` in
/// `num_iteraciones` steps.
pub fn enfriamiento_proporcional(
    actual: u64,
    t_inicial: u64,
    t_final: u64,
    num_iteraciones: usize,
) -> (t: u64)
    ensures
        exists|factor: u64|
            es_factor_proporcional(t_inicial, t_final, num_iteraciones, factor) && t == escalar(
                actual,
                factor,
            ),
        t <= actual,
{
    let factor = factor_proporcional(t_inicial, t_final, num_iteraciones);
    proof {
        lema_escalar(actual, factor);
    }
    let t = (actual as u128 * factor as u128 / UNO as u128) as u64;
    assert(es_factor_proporcional(t_inicial, t_final, num_iteraciones, factor) && t == escalar(
        actual,
        factor,
    ));
    t
}

/// The cooling schedules that simulated annealing can be run with.
#[derive(Clone, Copy, Debug, PartialEq, Eq, Structural)]
pub enum Enfriamiento {
    /// `enfriamiento_cauchy`.
    Cauchy,
    /// `enfriamiento_proporcional`.
    Proporcional,
}

/// Applies one step of a cooling schedule.
pub fn enfriar_segun(
    enfriamiento: Enfriamiento,
    actual: u64,
    t_inicial: u64,
    t_final: u64,
    num_iteraciones: usize,
) -> (t: u64)
    requires
        actual <= TEMPERATURA_MAXIMA,
        t_inicial <= TEMPERATURA_MAXIMA,
        t_final <= TEMPERATURA_MAXIMA,
        num_iteraciones <= ITERACIONES_MAXIMAS,
    ensures
        t <= TEMPERATURA_MAXIMA,
        enfriamiento == Enfriamiento::Cauchy ==> t == enfriamiento_cauchy_spec(
            actual,
            t_inicial,
            t_final,
            num_iteraciones,
        ),
        enfriamiento == Enfriamiento::Proporcional ==> exists|factor: u64|
            es_factor_proporcional(t_inicial, t_final, num_iteraciones, factor) && t == escalar(
                actual,
                factor,
            ),
{
    match enfriamiento {
        Enfriamiento::Cauchy => enfriamiento_cauchy(actual, t_inicial, t_final, num_iteraciones),
        Enfriamiento::Proporcional => enfriamiento_proporcional(
            actual,
            t_inicial,
            t_final,
            num_iteraciones,
        ),
    }
}


/// The Metropolis rule: a better solution is always accepted; one worse
/// by `d` is accepted at temperature `t` when `d <= t * x`, where `x` is
/// a draw from the exponential distribution of mean one, which happens
/// with probability `exp(-d / t)`.
pub open spec fn acepta_spec(f_actual: u64, f_nueva: u64, temperatura: u64, exponencial: u64) -> bool {
    f_nueva > f_actual || (f_actual - f_nueva) * UNO <= temperatura * exponencial
}

/// Decides whether a neighbour of score `f_nueva` replaces the solution of score `f_actual`.
pub fn acepta(f_actual: u64, f_nueva: u64, temperatura: u64, exponencial: u64) -> (b: bool)
    ensures
        b == acepta_spec(f_actual, f_nueva, temperatura, exponencial),
{
    if f_nueva > f_actual {
        true
    } else {
        let d: u128 = (f_actual - f_nueva) as u128;
        proof {
            assert(temperatura * exponencial <= 0xffff_ffff_ffff_ffff * 0xffff_ffff_ffff_ffff)
                by (nonlinear_arith)
                requires
                    0 <= temperatura <= 0xffff_ffff_ffff_ffff,
                    0 <= exponencial <= 0xffff_ffff_ffff_ffff,
            ;
            assert(d * UNO <= 0xffff_ffff_ffff_ffff * 1_000_000) by (nonlinear_arith)
                requires
                    0 <= d <= 0xffff_ffff_ffff_ffff,
                    UNO == 1_000_000,
            ;
        }
        d * (UNO as u128) <= temperatura as u128 * exponencial as u128
    }
}

/// The initial temperature for a first solution of score `f_inicial`.
pub open spec fn temperatura_inicial_spec(f_inicial: u64) -> int {
    f_inicial * FACTOR_TEMPERATURA / (UNO as int)
}

/// Computes the initial temperature.
pub fn temperatura_inicial(f_inicial: u64) -> (t: u64)
    requires
        f_inicial <= CIEN,
    ensures
        t == temperatura_inicial_spec(f_inicial),
        t <= TEMPERATURA_MAXIMA,
{
    assert(f_inicial * FACTOR_TEMPERATURA / (UNO as int) <= 100_000_000) by (nonlinear_arith)
        requires
            0 <= f_inicial <= 100_000_000,
            FACTOR_TEMPERATURA == 249_175,
            UNO == 1_000_000,
    ;
    (f_inicial as u128 * FACTOR_TEMPERATURA as u128 / UNO as u128) as u64
}

/// Neighbours tried at each temperature for `n_atributos` attributes:
/// ten for each, as far as a `usize` holds them.
pub open spec fn vecinos_por_iteracion_spec(n_atributos: nat) -> nat {
    if n_atributos <= usize::MAX / 10 {
        n_atributos * 10
    } else {
        usize::MAX as nat
    }
}

/// Computes `vecinos_por_iteracion_spec`.
pub fn vecinos_por_iteracion(n_atributos: usize) -> (m: usize)
    requires
        n_atributos > 0,
    ensures
        m == vecinos_por_iteracion_spec(n_atributos as nat),
        m >= 10,
{
    if n_atributos <= usize::MAX / FACTOR_VECINOS_ES {
        n_atributos * FACTOR_VECINOS_ES
    } else {
        usize::MAX
    }
}

/// `a / b` rounded up.
pub open spec fn division_techo(a: nat, b: nat) -> nat {
    if a % b == 0 {
        a / b
    } else {
        a / b + 1
    }
}

/// Computes `division_techo`.
pub fn dividir_techo(a: usize, b: usize) -> (q: usize)
    requires
        b > 0,
    ensures
        q == division_techo(a as nat, b as nat),
        q <= a,
{
    assert(a / b <= a) by (nonlinear_arith)
        requires
            b > 0,
            a >= 0,
    ;
    assert(b >= 2 && a >= 1 ==> a / b + 1 <= a) by (nonlinear_arith)
        requires
            b > 0,
            a >= 0,
    ;
    assert(b == 1 ==> a % b == 0);
    assert(a == 0 ==> a % b == 0) by (nonlinear_arith)
        requires
            b > 0,
    ;
    if a % b == 0 {
        a / b
    } else {
        a / b + 1
    }
}

/// State of a simulated annealing: the current solution and the best
/// one met, with their scores, the temperature, the acceptances that
/// the current temperature still allows, and the evaluations of the
/// objective function made so far.
pub struct EstadoEnfriamiento {
    pub actual: Vec<u64>,
    pub f_actual: u64,
    pub mejor: Vec<u64>,
    pub f_mejor: u64,
    pub temperatura: u64,
    pub exitos_restantes: usize,
    pub evaluaciones: usize,
}

impl EstadoEnfriamiento {
    /// The state as mathematical values, with the neighbours tried at
    /// the current temperature, the temperatures gone through, and
    /// whether the search stopped.
    pub open spec fn modelo(&self, vecinos: int, iteraciones: int, parado: bool) -> PasoEnfriamiento {
        PasoEnfriamiento {
            actual: self.actual@,
            f_actual: self.f_actual,
            mejor: self.mejor@,
            f_mejor: self.f_mejor,
            temperatura: self.temperatura,
            exitos_restantes: self.exitos_restantes as int,
            evaluaciones: self.evaluaciones as int,
            vecinos,
            iteraciones,
            parado,
        }
    }

    /// The state before the first neighbour: `w` has been evaluated once
    /// and is both the current and the best solution.
    pub fn new(w: Vec<u64>, fw: u64, temperatura: u64, max_exitos: usize) -> (e: EstadoEnfriamiento)
        ensures
            e.actual@ == w@,
            e.mejor@ == w@,
            e.f_actual == fw,
            e.f_mejor == fw,
            e.temperatura == temperatura,
            e.exitos_restantes == max_exitos,
            e.evaluaciones == 1,
    {
        let mejor = w.clone();
        assert(mejor@ == w@);
        EstadoEnfriamiento {
            actual: w,
            f_actual: fw,
            mejor,
            f_mejor: fw,
            temperatura,
            exitos_restantes: max_exitos,
            evaluaciones: 1,
        }
    }

    /// Takes in the neighbour `nueva` of score `ev`.  If it was accepted
    /// it becomes the current solution and uses up one acceptance, and
    /// it becomes the best solution too if it scores strictly above it.
    pub fn recibir(&mut self, nueva: Vec<u64>, ev: u64, aceptada: bool)
        requires
            old(self).evaluaciones < usize::MAX,
            aceptada ==> old(self).exitos_restantes > 0,
        ensures
            final(self).evaluaciones == old(self).evaluaciones + 1,
            final(self).temperatura == old(self).temperatura,
            final(self).f_mejor >= old(self).f_mejor,
            !aceptada ==> {
                &&& final(self).actual == old(self).actual
                &&& final(self).f_actual == old(self).f_actual
                &&& final(self).mejor == old(self).mejor
                &&& final(self).f_mejor == old(self).f_mejor
                &&& final(self).exitos_restantes == old(self).exitos_restantes
            },
            aceptada ==> {
                &&& final(self).actual@ == nueva@
                &&& final(self).f_actual == ev
                &&& final(self).exitos_restantes == old(self).exitos_restantes - 1
            },
            aceptada && ev > old(self).f_mejor ==> {
                &&& final(self).mejor@ == nueva@
                &&& final(self).f_mejor == ev
            },
            aceptada && ev <= old(self).f_mejor ==> {
                &&& final(self).mejor == old(self).mejor
                &&& final(self).f_mejor == old(self).f_mejor
            },
    {
        self.evaluaciones = self.evaluaciones + 1;
        if aceptada {
            self.exitos_restantes = self.exitos_restantes - 1;
            if ev > self.f_mejor {
                let copia = nueva.clone();
                assert(copia@ == nueva@);
                self.mejor = copia;
                self.f_mejor = ev;
            }
            self.actual = nueva;
            self.f_actual = ev;
        }
    }

    /// Ends the work at one temperature.  If no neighbour was accepted
    /// at it the search is over, and `true` is returned.  Otherwise
    /// the temperature is lowered by the schedule and the acceptances
    /// are allowed afresh.
    pub fn cerrar_iteracion(
        &mut self,
        enfriamiento: Enfriamiento,
        t_inicial: u64,
        num_iteraciones: usize,
        max_exitos: usize,
    ) -> (parado: bool)
        requires
            old(self).temperatura <= TEMPERATURA_MAXIMA,
            t_inicial <= TEMPERATURA_MAXIMA,
            num_iteraciones <= ITERACIONES_MAXIMAS,
        ensures
            parado == (old(self).exitos_restantes == max_exitos),
            final(self).actual == old(self).actual,
            final(self).f_actual == old(self).f_actual,
            final(self).mejor == old(self).mejor,
            final(self).f_mejor == old(self).f_mejor,
            final(self).evaluaciones == old(self).evaluaciones,
            final(self).temperatura <= TEMPERATURA_MAXIMA,
            parado ==> {
                &&& final(self).temperatura == old(self).temperatura
                &&& final(self).exitos_restantes == old(self).exitos_restantes
            },
            !parado ==> final(self).exitos_restantes == max_exitos,
            !parado && enfriamiento == Enfriamiento::Cauchy ==> final(self).temperatura
                == enfriamiento_cauchy_spec(
                old(self).temperatura,
                t_inicial,
                TEMPERATURA_FINAL,
                num_iteraciones,
            ),
            !parado && enfriamiento == Enfriamiento::Proporcional ==> exists|factor: u64|
                es_factor_proporcional(t_inicial, TEMPERATURA_FINAL, num_iteraciones, factor)
                    && final(self).temperatura == escalar(old(self).temperatura, factor),
    {
        if self.exitos_restantes == max_exitos {
            true
        } else {
            self.temperatura = enfriar_segun(
                enfriamiento,
                self.temperatura,
                t_inicial,
                TEMPERATURA_FINAL,
                num_iteraciones,
            );
            self.exitos_restantes = max_exitos;
            false
        }
    }
}

/// Number of temperatures that `max_evaluaciones` evaluations allow at
/// `max_vecinos` neighbours each, the first evaluation set aside.
pub open spec fn num_temperaturas(max_evaluaciones: nat, max_vecinos: nat) -> nat {
    division_techo((if max_evaluaciones > 0 { max_evaluaciones - 1 } else { 0 }) as nat, max_vecinos)
}

/// The factor of the proportional schedule: the one that `es_factor_proporcional` singles out.
pub open spec fn factor_proporcional_spec(t_inicial: u64, t_final: u64, num_iteraciones: usize) -> u64 {
    choose|factor: u64| es_factor_proporcional(t_inicial, t_final, num_iteraciones, factor)
}

/// The temperature that follows `actual` under a cooling schedule.
pub open spec fn enfriado(
    enfriamiento: Enfriamiento,
    actual: u64,
    t_inicial: u64,
    t_final: u64,
    num_iteraciones: usize,
) -> int {
    match enfriamiento {
        Enfriamiento::Cauchy => enfriamiento_cauchy_spec(actual, t_inicial, t_final, num_iteraciones),
        Enfriamiento::Proporcional => escalar(
            actual,
            factor_proporcional_spec(t_inicial, t_final, num_iteraciones),
        ) as int,
    }
}

/// What a simulated annealing is run with: the sample, the neighbour
/// operator and the schedule, and what follows from the number of
/// attributes, the budget and the score of the start: the neighbours
/// tried and the acceptances allowed at each temperature, the number of
/// temperatures, and the initial temperature.
pub ghost struct PlanEnfriamiento {
    pub e: Seq<Dato>,
    pub vecino: Vecino,
    pub enfriamiento: Enfriamiento,
    pub max_vecinos: int,
    pub max_exitos: int,
    pub num_iteraciones: usize,
    pub t_inicial: u64,
}

/// The plan of a simulated annealing from `w_inicial` with `max_evaluaciones` evaluations.
pub open spec fn plan_de_enfriamiento(
    e: Seq<Dato>,
    w_inicial: Seq<u64>,
    vecino: Vecino,
    enfriamiento: Enfriamiento,
    max_evaluaciones: nat,
) -> PlanEnfriamiento {
    let max_vecinos = vecinos_por_iteracion_spec(num_atributos(e));
    PlanEnfriamiento {
        e,
        vecino,
        enfriamiento,
        max_vecinos: max_vecinos as int,
        max_exitos: division_techo(max_vecinos, 10) as int,
        num_iteraciones: num_temperaturas(max_evaluaciones, max_vecinos) as usize,
        t_inicial: temperatura_inicial_spec(puntuacion(e, w_inicial) as u64) as u64,
    }
}

/// The state of a simulated annealing as mathematical values, with
/// the neighbours tried at the current temperature, the temperatures
/// gone through, and whether the search stopped for want of acceptances.
pub ghost struct PasoEnfriamiento {
    pub actual: Seq<u64>,
    pub f_actual: u64,
    pub mejor: Seq<u64>,
    pub f_mejor: u64,
    pub temperatura: u64,
    pub exitos_restantes: int,
    pub evaluaciones: int,
    pub vecinos: int,
    pub iteraciones: int,
    pub parado: bool,
}

/// Whether another neighbour is tried at the current temperature.
pub open spec fn queda_vecino(plan: PlanEnfriamiento, a: PasoEnfriamiento) -> bool {
    a.vecinos < plan.max_vecinos && a.exitos_restantes > 0 && a.evaluaciones < usize::MAX
}

/// The state that follows `a` when the neighbour `nueva` of score `ev`
/// is taken in: what `EstadoEnfriamiento::recibir` does.
pub open spec fn recibido(a: PasoEnfriamiento, nueva: Seq<u64>, ev: u64, aceptada: bool) -> PasoEnfriamiento {
    if !aceptada {
        PasoEnfriamiento { evaluaciones: a.evaluaciones + 1, vecinos: a.vecinos + 1, ..a }
    } else if ev > a.f_mejor {
        PasoEnfriamiento {
            actual: nueva,
            f_actual: ev,
            mejor: nueva,
            f_mejor: ev,
            exitos_restantes: a.exitos_restantes - 1,
            evaluaciones: a.evaluaciones + 1,
            vecinos: a.vecinos + 1,
            ..a
        }
    } else {
        PasoEnfriamiento {
            actual: nueva,
            f_actual: ev,
            exitos_restantes: a.exitos_restantes - 1,
            evaluaciones: a.evaluaciones + 1,
            vecinos: a.vecinos + 1,
            ..a
        }
    }
}

/// The state that follows `a` when the work at its temperature ends:
/// what `EstadoEnfriamiento::cerrar_iteracion` does.
pub open spec fn cerrado(plan: PlanEnfriamiento, a: PasoEnfriamiento) -> PasoEnfriamiento {
    if a.exitos_restantes == plan.max_exitos {
        PasoEnfriamiento { vecinos: 0, iteraciones: a.iteraciones + 1, parado: true, ..a }
    } else {
        PasoEnfriamiento {
            temperatura: enfriado(
                plan.enfriamiento,
                a.temperatura,
                plan.t_inicial,
                TEMPERATURA_FINAL,
                plan.num_iteraciones,
            ) as u64,
            exitos_restantes: plan.max_exitos,
            vecinos: 0,
            iteraciones: a.iteraciones + 1,
            ..a
        }
    }
}

/// The state before the first neighbour: the start is the current and
/// the best solution, at the initial temperature.
pub open spec fn paso_inicial(plan: PlanEnfriamiento, w_inicial: Seq<u64>) -> PasoEnfriamiento {
    PasoEnfriamiento {
        actual: w_inicial,
        f_actual: puntuacion(plan.e, w_inicial) as u64,
        mejor: w_inicial,
        f_mejor: puntuacion(plan.e, w_inicial) as u64,
        temperatura: plan.t_inicial,
        exitos_restantes: plan.max_exitos,
        evaluaciones: 1,
        vecinos: 0,
        iteraciones: 0,
        parado: false,
    }
}

/// `b` follows `a` in a simulated annealing.  While neighbours are
/// left at the temperature, a neighbour of the current solution at some
/// attribute is taken in, accepted by the Metropolis rule for some
/// exponential draw; when none is left, the work at the temperature ends.
pub open spec fn es_paso_de_enfriamiento(
    plan: PlanEnfriamiento,
    a: PasoEnfriamiento,
    b: PasoEnfriamiento,
) -> bool {
    if queda_vecino(plan, a) {
        exists|c: usize, paso: i64, x: u64|
            c < num_atributos(plan.e) && b == #[trigger] recibido(
                a,
                vecino_spec(plan.vecino, a.actual, c as int, paso),
                puntuacion(plan.e, vecino_spec(plan.vecino, a.actual, c as int, paso)) as u64,
                acepta_spec(
                    a.f_actual,
                    puntuacion(plan.e, vecino_spec(plan.vecino, a.actual, c as int, paso)) as u64,
                    a.temperatura,
                    x,
                ),
            )
    } else {
        b == cerrado(plan, a)
    }
}

/// Whether a simulated annealing is over: all its temperatures have
/// been gone through, or one went by without an acceptance.
pub open spec fn enfriamiento_acabado(plan: PlanEnfriamiento, a: PasoEnfriamiento) -> bool {
    a.iteraciones >= plan.num_iteraciones || a.parado
}

/// `f` is where a simulated annealing from `w_inicial` ends for some
/// draws: it starts at the initial temperature with `w_inicial` as the
/// current and the best solution, goes on step by step while it is not
/// over, and stops as soon as it is.
pub open spec fn es_enfriamiento(
    plan: PlanEnfriamiento,
    w_inicial: Seq<u64>,
    f: PasoEnfriamiento,
) -> bool {
    exists|estados: Seq<PasoEnfriamiento>|
        {
            &&& estados.len() >= 1
            &&& estados[0] == paso_inicial(plan, w_inicial)
            &&& #[trigger] estados[estados.len() - 1] == f
            &&& enfriamiento_acabado(plan, f)
            &&& cadena_de_enfriamiento(plan, estados)
        }
}

/// State `k` is not the last, and state `k + 1` follows it.
pub open spec fn eslabon_de_enfriamiento(
    plan: PlanEnfriamiento,
    estados: Seq<PasoEnfriamiento>,
    k: int,
) -> bool {
    !enfriamiento_acabado(plan, estados[k]) && es_paso_de_enfriamiento(
        plan,
        estados[k],
        estados[k + 1],
    )
}

/// The steps of a simulated annealing so far, none of them the last.
pub open spec fn cadena_de_enfriamiento(plan: PlanEnfriamiento, estados: Seq<PasoEnfriamiento>) -> bool {
    forall|k: int|
        0 <= k < estados.len() - 1 ==> #[trigger] eslabon_de_enfriamiento(plan, estados, k)
}

/// A chain of steps goes on with a step from its last state.
proof fn lema_extender_enfriamiento(
    plan: PlanEnfriamiento,
    estados: Seq<PasoEnfriamiento>,
    b: PasoEnfriamiento,
)
    requires
        estados.len() >= 1,
        cadena_de_enfriamiento(plan, estados),
        !enfriamiento_acabado(plan, estados[estados.len() - 1]),
        es_paso_de_enfriamiento(plan, estados[estados.len() - 1], b),
    ensures
        cadena_de_enfriamiento(plan, estados.push(b)),
        estados.push(b)[0] == estados[0],
        estados.push(b)[estados.push(b).len() - 1] == b,
{
    let nuevos = estados.push(b);
    assert forall|k: int| 0 <= k < nuevos.len() - 1 implies #[trigger] eslabon_de_enfriamiento(
        plan,
        nuevos,
        k,
    ) by {
        if k < estados.len() - 1 {
            assert(eslabon_de_enfriamiento(plan, estados, k));
            assert(nuevos[k] == estados[k] && nuevos[k + 1] == estados[k + 1]);
        } else {
            assert(nuevos[k] == estados[k] && nuevos[k + 1] == b);
        }
    }
}

/// Taking in a neighbour is a step of the annealing while neighbours are left.
proof fn lema_vecino_es_paso(plan: PlanEnfriamiento, a: PasoEnfriamiento, c: usize, paso: i64, x: u64)
    requires
        queda_vecino(plan, a),
        c < num_atributos(plan.e),
    ensures
        es_paso_de_enfriamiento(
            plan,
            a,
            recibido(
                a,
                vecino_spec(plan.vecino, a.actual, c as int, paso),
                puntuacion(plan.e, vecino_spec(plan.vecino, a.actual, c as int, paso)) as u64,
                acepta_spec(
                    a.f_actual,
                    puntuacion(plan.e, vecino_spec(plan.vecino, a.actual, c as int, paso)) as u64,
                    a.temperatura,
                    x,
                ),
            ),
        ),
{
}

/// Simulated annealing from `w_inicial`, with its final state.  At each
/// temperature ten neighbours per attribute are tried, each at a random
/// attribute, until a tenth of them have been accepted by the Metropolis
/// rule; then the temperature is lowered.  The search ends after the
/// number of temperatures that `max_evaluaciones` evaluations allow, or
/// at the first temperature at which no neighbour is accepted.  (No
/// neighbour is tried once the count of evaluations has reached the
/// largest `usize`.)
pub fn enfriar_simuladamente<R: Ruido>(
    entrenamiento: &[Dato],
    w_inicial: &[u64],
    vecino: Vecino,
    enfriamiento: Enfriamiento,
    max_evaluaciones: usize,
    rng: &mut Isaac64Rng,
    ruido: &R,
) -> (e: EstadoEnfriamiento)
    requires
        muestra_valida(entrenamiento@),
        pesos_validos(entrenamiento@, w_inicial@),
        max_evaluaciones <= ITERACIONES_MAXIMAS,
    ensures
        pesos_validos(entrenamiento@, e.mejor@),
        e.f_mejor == puntuacion(entrenamiento@, e.mejor@),
        e.f_mejor >= puntuacion(entrenamiento@, w_inicial@),
        pesos_validos(entrenamiento@, e.actual@),
        e.f_actual == puntuacion(entrenamiento@, e.actual@),
        e.f_mejor >= e.f_actual,
        1 <= e.evaluaciones,
        e.evaluaciones <= 1 + num_temperaturas(
            max_evaluaciones as nat,
            vecinos_por_iteracion_spec(num_atributos(entrenamiento@)),
        ) * vecinos_por_iteracion_spec(num_atributos(entrenamiento@)),
        max_evaluaciones <= 1 ==> e.mejor@ == w_inicial@ && e.evaluaciones == 1,
        exists|iteraciones: int, parado: bool|
            es_enfriamiento(
                plan_de_enfriamiento(
                    entrenamiento@,
                    w_inicial@,
                    vecino,
                    enfriamiento,
                    max_evaluaciones as nat,
                ),
                w_inicial@,
                #[trigger] e.modelo(0, iteraciones, parado),
            ),
        normalizado(w_inicial@) || todo_cero(w_inicial@) ==> normal_o_sobre_cero(
            entrenamiento@,
            e.mejor@,
        ),
{
    let ghost plan = plan_de_enfriamiento(
        entrenamiento@,
        w_inicial@,
        vecino,
        enfriamiento,
        max_evaluaciones as nat,
    );
    let ghost cero = puntuacion(entrenamiento@, ceros(w_inicial@.len()));
    let n_caracteristicas: usize = entrenamiento[0].num_atributos();
    let max_vecinos: usize = vecinos_por_iteracion(n_caracteristicas);
    let max_exitos: usize = dividir_techo(max_vecinos, 10);
    let num_iteraciones: usize = dividir_techo(
        if max_evaluaciones > 0 {
            max_evaluaciones - 1
        } else {
            0
        },
        max_vecinos,
    );
    proof {
        lema_muestra_evaluable(entrenamiento@, w_inicial@);
    }
    let f_inicial: u64 = evaluar(entrenamiento, w_inicial);
    let t_inicial: u64 = temperatura_inicial(f_inicial);
    let mut e = EstadoEnfriamiento::new(
        vstd::slice::slice_to_vec(w_inicial),
        f_inicial,
        t_inicial,
        max_exitos,
    );
    let mut i: usize = 0;
    let mut parado = false;
    let ghost mut estados: Seq<PasoEnfriamiento> = seq![e.modelo(0, 0, false)];
    proof {
        if todo_cero(w_inicial@) {
            lema_ceros(w_inicial@);
        }
    }
    while i < num_iteraciones && !parado
        invariant
            i <= num_iteraciones,
            plan == plan_de_enfriamiento(
                entrenamiento@,
                w_inicial@,
                vecino,
                enfriamiento,
                max_evaluaciones as nat,
            ),
            plan.max_vecinos == max_vecinos,
            plan.max_exitos == max_exitos,
            plan.num_iteraciones == num_iteraciones,
            plan.t_inicial == t_inicial,
            w_inicial@.len() == num_atributos(entrenamiento@),
            cero == puntuacion(entrenamiento@, ceros(w_inicial@.len())),
            estados.len() >= 1,
            estados[0] == paso_inicial(plan, w_inicial@),
            estados[estados.len() - 1] == e.modelo(0, i as int, parado),
            cadena_de_enfriamiento(plan, estados),
            normalizado(w_inicial@) || todo_cero(w_inicial@) ==> normalizado(e.actual@)
                || todo_cero(e.actual@) || e.f_mejor >= cero,
            normalizado(w_inicial@) || todo_cero(w_inicial@) ==> normalizado(e.mejor@)
                || todo_cero(e.mejor@) || e.f_mejor > cero,
            muestra_valida(entrenamiento@),
            n_caracteristicas == num_atributos(entrenamiento@),
            max_vecinos == vecinos_por_iteracion_spec(n_caracteristicas as nat),
            num_iteraciones == num_temperaturas(max_evaluaciones as nat, max_vecinos as nat),
            num_iteraciones <= ITERACIONES_MAXIMAS,
            t_inicial <= TEMPERATURA_MAXIMA,
            e.temperatura <= TEMPERATURA_MAXIMA,
            pesos_validos(entrenamiento@, e.actual@),
            e.f_actual == puntuacion(entrenamiento@, e.actual@),
            pesos_validos(entrenamiento@, e.mejor@),
            e.f_mejor == puntuacion(entrenamiento@, e.mejor@),
            e.f_mejor >= puntuacion(entrenamiento@, w_inicial@),
            e.f_mejor >= e.f_actual,
            e.exitos_restantes == max_exitos,
            1 <= e.evaluaciones <= 1 + i * max_vecinos,
            max_evaluaciones <= 1 ==> e.mejor@ == w_inicial@ && num_iteraciones == 0
                && e.evaluaciones == 1,
        decreases num_iteraciones - i,
    {
        proof {
            assert((i + 1) * max_vecinos == i * max_vecinos + max_vecinos) by (nonlinear_arith);
        }
        let mut j: usize = 0;
        while j < max_vecinos && e.exitos_restantes > 0 && e.evaluaciones < usize::MAX
            invariant
                j <= max_vecinos,
                i < num_iteraciones,
                plan.e == entrenamiento@,
                plan.vecino == vecino,
                plan.max_vecinos == max_vecinos,
                plan.max_exitos == max_exitos,
                plan.num_iteraciones == num_iteraciones,
                plan.t_inicial == t_inicial,
                w_inicial@.len() == num_atributos(entrenamiento@),
                cero == puntuacion(entrenamiento@, ceros(w_inicial@.len())),
                estados.len() >= 1,
                estados[0] == paso_inicial(plan, w_inicial@),
                estados[estados.len() - 1] == e.modelo(j as int, i as int, false),
                cadena_de_enfriamiento(plan, estados),
                normalizado(w_inicial@) || todo_cero(w_inicial@) ==> normalizado(e.actual@)
                    || todo_cero(e.actual@) || e.f_mejor >= cero,
                normalizado(w_inicial@) || todo_cero(w_inicial@) ==> normalizado(e.mejor@)
                    || todo_cero(e.mejor@) || e.f_mejor > cero,
                muestra_valida(entrenamiento@),
                n_caracteristicas == num_atributos(entrenamiento@),
                pesos_validos(entrenamiento@, e.actual@),
                e.f_actual == puntuacion(entrenamiento@, e.actual@),
                pesos_validos(entrenamiento@, e.mejor@),
                e.f_mejor == puntuacion(entrenamiento@, e.mejor@),
                e.f_mejor >= puntuacion(entrenamiento@, w_inicial@),
                e.f_mejor >= e.f_actual,
                e.exitos_restantes <= max_exitos,
                e.temperatura <= TEMPERATURA_MAXIMA,
                1 <= e.evaluaciones <= 1 + i * max_vecinos + j,
                (i + 1) * max_vecinos == i * max_vecinos + max_vecinos,
            decreases max_vecinos - j,
        {
            let c: usize = entero_en_rango(rng, 0, n_caracteristicas);
            let nueva = aplicar_vecino(vecino, e.actual.as_slice(), c, rng, ruido);
            proof {
                lema_muestra_evaluable(entrenamiento@, nueva@);
            }
            let ev: u64 = evaluar(entrenamiento, nueva.as_slice());
            let ghost mut sorteo: u64 = 0;
            let aceptada = if ev > e.f_actual {
                true
            } else {
                let x = ruido.exponencial(rng);
                proof {
                    sorteo = x;
                }
                acepta(e.f_actual, ev, e.temperatura, x)
            };
            let ghost a = e.modelo(j as int, i as int, false);
            let ghost paso = choose|paso: i64|
                nueva@ == vecino_spec(vecino, e.actual@, c as int, paso);
            let ghost tomada = nueva@;
            proof {
                if todo_cero(e.actual@) {
                    lema_ceros(e.actual@);
                }
                if todo_cero(nueva@) {
                    lema_ceros(nueva@);
                }
            }
            e.recibir(nueva, ev, aceptada);
            j += 1;
            proof {
                let b = e.modelo(j as int, i as int, false);
                assert(aceptada == acepta_spec(a.f_actual, ev, a.temperatura, sorteo));
                assert(tomada == vecino_spec(plan.vecino, a.actual, c as int, paso));
                assert(b == recibido(a, tomada, ev, aceptada));
                lema_vecino_es_paso(plan, a, c, paso, sorteo);
                lema_extender_enfriamiento(plan, estados, b);
                estados = estados.push(b);
            }
        }
        let ghost a = e.modelo(j as int, i as int, false);
        let ghost temperatura_previa = e.temperatura;
        parado = e.cerrar_iteracion(enfriamiento, t_inicial, num_iteraciones, max_exitos);
        i += 1;
        proof {
            let b = e.modelo(0, i as int, parado);
            if !parado && enfriamiento == Enfriamiento::Proporcional {
                let f1 = choose|factor: u64|
                    es_factor_proporcional(t_inicial, TEMPERATURA_FINAL, num_iteraciones, factor)
                        && e.temperatura == escalar(temperatura_previa, factor);
                let f2 = factor_proporcional_spec(t_inicial, TEMPERATURA_FINAL, num_iteraciones);
                lema_factor_unico(t_inicial, TEMPERATURA_FINAL, num_iteraciones, f1, f2);
            }
            assert(!queda_vecino(plan, a));
            assert(b == cerrado(plan, a));
            lema_extender_enfriamiento(plan, estados, b);
            estados = estados.push(b);
        }
    }
    proof {
        assert(enfriamiento_acabado(plan, e.modelo(0, i as int, parado)));
        assert(es_enfriamiento(plan, w_inicial@, e.modelo(0, i as int, parado)));
        if todo_cero(e.mejor@) {
            lema_ceros(e.mejor@);
        }
    }
    proof {
        assert(i * max_vecinos <= num_iteraciones * max_vecinos) by (nonlinear_arith)
            requires
                i <= num_iteraciones,
                max_vecinos >= 0,
        ;
    }
    e
}

/// `w` is what a simulated annealing from `w_inicial` may return: the
/// best solution of the state where the search ends for some draws.
pub open spec fn es_resultado_enfriado(
    e: Seq<Dato>,
    w_inicial: Seq<u64>,
    vecino: Vecino,
    enfriamiento: Enfriamiento,
    max_evaluaciones: nat,
    w: Seq<u64>,
) -> bool {
    exists|f: PasoEnfriamiento|
        #[trigger] es_enfriamiento(
            plan_de_enfriamiento(e, w_inicial, vecino, enfriamiento, max_evaluaciones),
            w_inicial,
            f,
        ) && w == f.mejor
}

/// `w` is what a simulated annealing of `MAX_EVALUACIONES` evaluations
/// may return from a first solution of the kind `gen_inicial`.
pub open spec fn es_resultado_enfriado_al_azar(
    e: Seq<Dato>,
    gen_inicial: Inicial,
    vecino: Vecino,
    enfriamiento: Enfriamiento,
    w: Seq<u64>,
) -> bool {
    exists|w_inicial: Seq<u64>|
        {
            &&& pesos_validos(e, w_inicial)
            &&& normalizado(w_inicial) || todo_cero(w_inicial)
            &&& gen_inicial == Inicial::Relief ==> w_inicial == relief_spec(e)
            &&& #[trigger] es_resultado_enfriado(
                e,
                w_inicial,
                vecino,
                enfriamiento,
                MAX_EVALUACIONES as nat,
                w,
            )
        }
}

/// Simulated annealing from `w_inicial`: the best solution that
/// `enfriar_simuladamente` meets.
pub fn enfriamiento_simulado_desde<R: Ruido>(
    entrenamiento: &[Dato],
    w_inicial: &[u64],
    vecino: Vecino,
    enfriamiento: Enfriamiento,
    max_evaluaciones: usize,
    rng: &mut Isaac64Rng,
    ruido: &R,
) -> (w: Vec<u64>)
    requires
        muestra_valida(entrenamiento@),
        pesos_validos(entrenamiento@, w_inicial@),
        max_evaluaciones <= ITERACIONES_MAXIMAS,
    ensures
        pesos_validos(entrenamiento@, w@),
        puntuacion(entrenamiento@, w@) >= puntuacion(entrenamiento@, w_inicial@),
        max_evaluaciones <= 1 ==> w@ == w_inicial@,
        es_resultado_enfriado(
            entrenamiento@,
            w_inicial@,
            vecino,
            enfriamiento,
            max_evaluaciones as nat,
            w@,
        ),
        normalizado(w_inicial@) || todo_cero(w_inicial@) ==> normal_o_sobre_cero(
            entrenamiento@,
            w@,
        ),
{
    let e = enfriar_simuladamente(
        entrenamiento,
        w_inicial,
        vecino,
        enfriamiento,
        max_evaluaciones,
        rng,
        ruido,
    );
    proof {
        let (iteraciones, parado) = choose|iteraciones: int, parado: bool|
            es_enfriamiento(
                plan_de_enfriamiento(
                    entrenamiento@,
                    w_inicial@,
                    vecino,
                    enfriamiento,
                    max_evaluaciones as nat,
                ),
                w_inicial@,
                #[trigger] e.modelo(0, iteraciones, parado),
            );
        assert(e.modelo(0, iteraciones, parado).mejor == e.mejor@);
    }
    e.mejor
}

/// Simulated annealing from the first solution that `gen_inicial` gives.
pub fn simulated_annealing_general<R: Ruido>(
    entrenamiento: &[Dato],
    gen_inicial: Inicial,
    vecino: Vecino,
    enfriamiento: Enfriamiento,
    rng: &mut Isaac64Rng,
    ruido: &R,
) -> (w: Vec<u64>)
    requires
        muestra_valida(entrenamiento@),
        gen_inicial == Inicial::Relief ==> relief_aplicable(entrenamiento@),
    ensures
        pesos_validos(entrenamiento@, w@),
        gen_inicial == Inicial::Relief ==> puntuacion(entrenamiento@, w@) >= puntuacion(
            entrenamiento@,
            relief_spec(entrenamiento@),
        ),
        es_resultado_enfriado_al_azar(entrenamiento@, gen_inicial, vecino, enfriamiento, w@),
        normal_o_sobre_cero(entrenamiento@, w@),
{
    let solucion = generar_inicial(gen_inicial, entrenamiento, rng);
    let w = enfriamiento_simulado_desde(
        entrenamiento,
        solucion.as_slice(),
        vecino,
        enfriamiento,
        MAX_EVALUACIONES,
        rng,
        ruido,
    );
    proof {
        assert(es_resultado_enfriado(
            entrenamiento@,
            solucion@,
            vecino,
            enfriamiento,
            MAX_EVALUACIONES as nat,
            w@,
        ));
    }
    w
}

/// Simulated annealing with the default operator and the Cauchy schedule.
pub fn es<R: Ruido>(entrenamiento: &[Dato], rng: &mut Isaac64Rng, ruido: &R) -> (w: Vec<u64>)
    requires
        muestra_valida(entrenamiento@),
    ensures
        pesos_validos(entrenamiento@, w@),
        es_resultado_enfriado_al_azar(
            entrenamiento@,
            Inicial::VectorAu,
            Vecino::Bl,
            Enfriamiento::Cauchy,
            w@,
        ),
        normal_o_sobre_cero(entrenamiento@, w@),
{
    simulated_annealing_general(
        entrenamiento,
        Inicial::VectorAu,
        Vecino::Bl,
        Enfriamiento::Cauchy,
        rng,
        ruido,
    )
}

/// Simulated annealing with the alternative operator and the Cauchy schedule.
pub fn es_mut2<R: Ruido>(entrenamiento: &[Dato], rng: &mut Isaac64Rng, ruido: &R) -> (w: Vec<u64>)
    requires
        muestra_valida(entrenamiento@),
    ensures
        pesos_validos(entrenamiento@, w@),
        es_resultado_enfriado_al_azar(
            entrenamiento@,
            Inicial::VectorAu,
            Vecino::BlMut2,
            Enfriamiento::Cauchy,
            w@,
        ),
        normal_o_sobre_cero(entrenamiento@, w@),
{
    simulated_annealing_general(
        entrenamiento,
        Inicial::VectorAu,
        Vecino::BlMut2,
        Enfriamiento::Cauchy,
        rng,
        ruido,
    )
}

/// Simulated annealing with the default operator and the proportional schedule.
pub fn es_prop<R: Ruido>(entrenamiento: &[Dato], rng: &mut Isaac64Rng, ruido: &R) -> (w: Vec<u64>)
    requires
        muestra_valida(entrenamiento@),
    ensures
        pesos_validos(entrenamiento@, w@),
        es_resultado_enfriado_al_azar(
            entrenamiento@,
            Inicial::VectorAu,
            Vecino::Bl,
            Enfriamiento::Proporcional,
            w@,
        ),
        normal_o_sobre_cero(entrenamiento@, w@),
{
    simulated_annealing_general(
        entrenamiento,
        Inicial::VectorAu,
        Vecino::Bl,
        Enfriamiento::Proporcional,
        rng,
        ruido,
    )
}

/// Simulated annealing with the alternative operator and the proportional schedule.
pub fn es_prop_mut2<R: Ruido>(entrenamiento: &[Dato], rng: &mut Isaac64Rng, ruido: &R) -> (w: Vec<
    u64,
>)
    requires
        muestra_valida(entrenamiento@),
    ensures
        pesos_validos(entrenamiento@, w@),
        es_resultado_enfriado_al_azar(
            entrenamiento@,
            Inicial::VectorAu,
            Vecino::BlMut2,
            Enfriamiento::Proporcional,
            w@,
        ),
        normal_o_sobre_cero(entrenamiento@, w@),
{
    simulated_annealing_general(
        entrenamiento,
        Inicial::VectorAu,
        Vecino::BlMut2,
        Enfriamiento::Proporcional,
        rng,
        ruido,
    )
}


/// Standard deviation of the steps of the strong mutation: 0.4.
pub const DESVIACION_ILS: u64 = 400_000;

/// `w` after the first `n` of the given steps, each applied at its
/// position and confined to `[0, UNO]`.
pub open spec fn sacudir(w: Seq<u64>, posiciones: Seq<usize>, pasos: Seq<i64>, n: nat) -> Seq<u64>
    decreases n,
{
    if n == 0 {
        w
    } else {
        let previo = sacudir(w, posiciones, pasos, (n - 1) as nat);
        let p = posiciones[n - 1] as int;
        previo.update(p, recortar_spec(previo[p] + pasos[n - 1]) as u64)
    }
}

/// The strong mutation for given positions and steps: the steps are
/// applied and the vector is normalized.
pub open spec fn vecino_ils_spec(w: Seq<u64>, posiciones: Seq<usize>, pasos: Seq<i64>) -> Seq<u64> {
    normalizar_spec(sacudir(w, posiciones, pasos, posiciones.len()))
}

/// Applies the strong mutation at the given positions with the given steps.
pub fn vecino_ils_con(w: &[u64], posiciones: &[usize], pasos: &[i64]) -> (nw: Vec<u64>)
    requires
        posiciones@.len() == pasos@.len(),
        forall|k: int| 0 <= k < posiciones@.len() ==> #[trigger] posiciones@[k] < w@.len(),
    ensures
        nw@ == vecino_ils_spec(w@, posiciones@, pasos@),
        nw@.len() == w@.len(),
        normalizado(nw@) || todo_cero(nw@),
{
    let mut nw = vstd::slice::slice_to_vec(w);
    let mut k: usize = 0;
    while k < posiciones.len()
        invariant
            k <= posiciones@.len(),
            posiciones@.len() == pasos@.len(),
            forall|j: int| 0 <= j < posiciones@.len() ==> #[trigger] posiciones@[j] < w@.len(),
            nw@.len() == w@.len(),
            nw@ == sacudir(w@, posiciones@, pasos@, k as nat),
        decreases posiciones@.len() - k,
    {
        let p: usize = posiciones[k];
        let v: u64 = recortar_suma(nw[p], pasos[k]);
        nw[p] = v;
        k += 1;
    }
    proof {
        lema_normalizar(nw@);
    }
    normalizar(&mut nw);
    nw
}

/// How many components the strong mutation moves: a tenth of them, rounded.
pub open spec fn num_sacudidas(n: nat) -> nat {
    n / 10 + (if n % 10 >= 5 {
        1nat
    } else {
        0nat
    })
}

/// The strong mutation of the iterated local search: a random tenth of
/// the components move by a normal step of standard deviation 0.4, and
/// the vector is normalized.
pub fn vecino_ils<R: Ruido>(w: &[u64], rng: &mut Isaac64Rng, ruido: &R) -> (nw: Vec<u64>)
    ensures
        nw@.len() == w@.len(),
        normalizado(nw@) || todo_cero(nw@),
        exists|posiciones: Seq<usize>, pasos: Seq<i64>|
            {
                &&& posiciones.len() == num_sacudidas(w@.len())
                &&& pasos.len() == posiciones.len()
                &&& posiciones.no_duplicates()
                &&& forall|j: int| 0 <= j < posiciones.len() ==> posiciones[j] < w@.len()
                &&& #[trigger] vecino_ils_spec(w@, posiciones, pasos) == nw@
            },
{
    let componentes = permutacion_aleatoria(w.len(), rng);
    let n: usize = w.len();
    let m: usize = n / 10 + if n % 10 >= 5 {
        1
    } else {
        0
    };
    let mut posiciones: Vec<usize> = Vec::new();
    let mut pasos: Vec<i64> = Vec::new();
    let mut k: usize = 0;
    while k < m
        invariant
            k <= m <= n,
            n == w@.len(),
            componentes@.len() == n,
            forall|j: int| 0 <= j < componentes@.len() ==> #[trigger] componentes@[j] < w@.len(),
            posiciones@.len() == k,
            pasos@.len() == k,
            forall|j: int| 0 <= j < k ==> #[trigger] posiciones@[j] < w@.len(),
            componentes@.no_duplicates(),
            forall|j: int| 0 <= j < k ==> #[trigger] posiciones@[j] == componentes@[j],
        decreases m - k,
    {
        posiciones.push(componentes[k]);
        pasos.push(ruido.normal(rng, DESVIACION_ILS));
        k += 1;
    }
    let nw = vecino_ils_con(w, posiciones.as_slice(), pasos.as_slice());
    assert(posiciones@.no_duplicates());
    assert(posiciones@.len() == num_sacudidas(w@.len()) && vecino_ils_spec(
        w@,
        posiciones@,
        pasos@,
    ) == nw@);
    nw
}

/// The local search of the iterated local search: the default operator,
/// stopped by `MAX_EVALUACIONES_BL` evaluations alone.
pub fn bl_ils<R: Ruido>(entrenamiento: &[Dato], w_base: &[u64], rng: &mut Isaac64Rng, ruido: &R) -> (w:
    Vec<u64>)
    requires
        muestra_valida(entrenamiento@),
        pesos_validos(entrenamiento@, w_base@),
    ensures
        pesos_validos(entrenamiento@, w@),
        puntuacion(entrenamiento@, w@) >= puntuacion(entrenamiento@, w_base@),
        es_resultado_local(
            entrenamiento@,
            w_base@,
            Vecino::Bl,
            false,
            MAX_EVALUACIONES_BL as int,
            MAX_CICLOS_BL as int,
            w@,
        ),
        w@ == w_base@ || puntuacion(entrenamiento@, w@) > puntuacion(entrenamiento@, w_base@),
        normalizado(w_base@) || todo_cero(w_base@) ==> normal_o_sobre_cero(entrenamiento@, w@),
{
    busqueda_local_generica_desde(
        entrenamiento,
        w_base,
        Vecino::Bl,
        MAX_EVALUACIONES_BL,
        MAX_CICLOS_BL,
        rng,
        ruido,
    )
}

/// The local search of the iterated local search with the alternative operator.
pub fn bl_ils_mut2<R: Ruido>(
    entrenamiento: &[Dato],
    w_base: &[u64],
    rng: &mut Isaac64Rng,
    ruido: &R,
) -> (w: Vec<u64>)
    requires
        muestra_valida(entrenamiento@),
        pesos_validos(entrenamiento@, w_base@),
    ensures
        pesos_validos(entrenamiento@, w@),
        puntuacion(entrenamiento@, w@) >= puntuacion(entrenamiento@, w_base@),
        es_resultado_local(
            entrenamiento@,
            w_base@,
            Vecino::BlMut2,
            false,
            MAX_EVALUACIONES_BL as int,
            MAX_CICLOS_BL as int,
            w@,
        ),
        w@ == w_base@ || puntuacion(entrenamiento@, w@) > puntuacion(entrenamiento@, w_base@),
        normalizado(w_base@) || todo_cero(w_base@) ==> normal_o_sobre_cero(entrenamiento@, w@),
{
    busqueda_local_generica_desde(
        entrenamiento,
        w_base,
        Vecino::BlMut2,
        MAX_EVALUACIONES_BL,
        MAX_CICLOS_BL,
        rng,
        ruido,
    )
}

/// `b` follows `a` in an iterated local search: for some strong
/// mutation of `a` and some refinement of it, `b` is the outcome if it
/// scores strictly above `a`, and `a` otherwise.
pub open spec fn es_paso_iterado(bl: Refinamiento, e: Seq<Dato>, a: Seq<u64>, b: Seq<u64>) -> bool {
    exists|posiciones: Seq<usize>, pasos: Seq<i64>, nueva: Seq<u64>|
        {
            &&& posiciones.len() == num_sacudidas(a.len())
            &&& posiciones.no_duplicates()
            &&& forall|j: int| 0 <= j < posiciones.len() ==> posiciones[j] < a.len()
            &&& #[trigger] es_refinado(bl, e, vecino_ils_spec(a, posiciones, pasos), nueva)
            &&& b == if puntuacion(e, nueva) > puntuacion(e, a) {
                nueva
            } else {
                a
            }
        }
}

/// Solution `k + 1` follows solution `k`.
pub open spec fn eslabon_iterado(
    bl: Refinamiento,
    e: Seq<Dato>,
    mejores: Seq<Seq<u64>>,
    k: int,
) -> bool {
    es_paso_iterado(bl, e, mejores[k], mejores[k + 1])
}

/// The best solutions of an iterated local search from `w_inicial`,
/// one for each local search made: the first refines `w_inicial`, and
/// each other follows the one before it.
pub open spec fn cadena_iterada(
    bl: Refinamiento,
    e: Seq<Dato>,
    w_inicial: Seq<u64>,
    mejores: Seq<Seq<u64>>,
) -> bool {
    &&& mejores.len() >= 1
    &&& es_refinado(bl, e, w_inicial, mejores[0])
    &&& forall|k: int| 0 <= k < mejores.len() - 1 ==> #[trigger] eslabon_iterado(bl, e, mejores, k)
}

/// `w` is what an iterated local search of `iteraciones` local searches
/// may return from `w_inicial`: the last of its best solutions.
pub open spec fn es_busqueda_iterada(
    bl: Refinamiento,
    e: Seq<Dato>,
    w_inicial: Seq<u64>,
    iteraciones: nat,
    w: Seq<u64>,
) -> bool {
    exists|mejores: Seq<Seq<u64>>|
        {
            &&& #[trigger] cadena_iterada(bl, e, w_inicial, mejores)
            &&& mejores.len() == if iteraciones == 0 {
                1
            } else {
                iteraciones
            }
            &&& w == mejores[mejores.len() - 1]
        }
}

/// A chain of best solutions goes on with a solution that follows its last.
proof fn lema_extender_iterada(
    bl: Refinamiento,
    e: Seq<Dato>,
    w_inicial: Seq<u64>,
    mejores: Seq<Seq<u64>>,
    b: Seq<u64>,
)
    requires
        cadena_iterada(bl, e, w_inicial, mejores),
        es_paso_iterado(bl, e, mejores[mejores.len() - 1], b),
    ensures
        cadena_iterada(bl, e, w_inicial, mejores.push(b)),
{
    let nuevos = mejores.push(b);
    assert(nuevos[0] == mejores[0]);
    assert forall|k: int| 0 <= k < nuevos.len() - 1 implies #[trigger] eslabon_iterado(
        bl,
        e,
        nuevos,
        k,
    ) by {
        if k < mejores.len() - 1 {
            assert(eslabon_iterado(bl, e, mejores, k));
            assert(nuevos[k] == mejores[k] && nuevos[k + 1] == mejores[k + 1]);
        } else {
            assert(nuevos[k] == mejores[k] && nuevos[k + 1] == b);
        }
    }
}

/// Iterated local search from `w_inicial`: the solution is refined, and
/// then `iteraciones - 1` times the best solution is mutated strongly and
/// refined again, the outcome kept only if it scores strictly higher.
pub fn busqueda_local_iterada_desde<R: Ruido>(
    entrenamiento: &[Dato],
    w_inicial: &[u64],
    bl: Refinamiento,
    iteraciones: usize,
    rng: &mut Isaac64Rng,
    ruido: &R,
) -> (w: Vec<u64>)
    requires
        muestra_valida(entrenamiento@),
        pesos_validos(entrenamiento@, w_inicial@),
    ensures
        pesos_validos(entrenamiento@, w@),
        puntuacion(entrenamiento@, w@) >= puntuacion(entrenamiento@, w_inicial@),
        (bl == Refinamiento::TruncadoOptimo || bl == Refinamiento::AfinidadOptima) && (normalizado(
            w_inicial@,
        ) || todo_cero(w_inicial@)) ==> normalizado(w@) || todo_cero(w@),
        es_busqueda_iterada(bl, entrenamiento@, w_inicial@, iteraciones as nat, w@),
        normalizado(w_inicial@) || todo_cero(w_inicial@) ==> normal_o_sobre_cero(
            entrenamiento@,
            w@,
        ),
{
    let solucion_bl = refinar(bl, entrenamiento, w_inicial, rng, ruido);
    proof {
        lema_muestra_evaluable(entrenamiento@, solucion_bl@);
    }
    let mut f_mejor: u64 = evaluar(entrenamiento, solucion_bl.as_slice());
    let mut mejor: Vec<u64> = solucion_bl;
    let mut i: usize = 1;
    let ghost mut mejores: Seq<Seq<u64>> = seq![mejor@];
    while i < iteraciones
        invariant
            1 <= i,
            i <= iteraciones || i == 1,
            mejores.len() == i,
            mejores[i - 1] == mejor@,
            cadena_iterada(bl, entrenamiento@, w_inicial@, mejores),
            normalizado(w_inicial@) || todo_cero(w_inicial@) ==> normal_o_sobre_cero(
                entrenamiento@,
                mejor@,
            ),
            muestra_valida(entrenamiento@),
            pesos_validos(entrenamiento@, mejor@),
            f_mejor == puntuacion(entrenamiento@, mejor@),
            f_mejor >= puntuacion(entrenamiento@, w_inicial@),
            (bl == Refinamiento::TruncadoOptimo || bl == Refinamiento::AfinidadOptima) && (
            normalizado(w_inicial@) || todo_cero(w_inicial@)) ==> normalizado(mejor@) || todo_cero(
                mejor@,
            ),
        decreases iteraciones - i,
    {
        let solucion_mutada = vecino_ils(mejor.as_slice(), rng, ruido);
        assert(a_escala(solucion_mutada@));
        let nueva_solucion = refinar(bl, entrenamiento, solucion_mutada.as_slice(), rng, ruido);
        proof {
            lema_muestra_evaluable(entrenamiento@, nueva_solucion@);
        }
        let evaluacion: u64 = evaluar(entrenamiento, nueva_solucion.as_slice());
        let ghost previo = mejor@;
        let ghost refinada = nueva_solucion@;
        if evaluacion > f_mejor {
            mejor = nueva_solucion;
            f_mejor = evaluacion;
        }
        i += 1;
        proof {
            let (posiciones, pasos) = choose|posiciones: Seq<usize>, pasos: Seq<i64>|
                {
                    &&& posiciones.len() == num_sacudidas(previo.len())
                    &&& pasos.len() == posiciones.len()
                    &&& posiciones.no_duplicates()
                    &&& forall|j: int| 0 <= j < posiciones.len() ==> posiciones[j] < previo.len()
                    &&& #[trigger] vecino_ils_spec(previo, posiciones, pasos) == solucion_mutada@
                };
            assert(es_refinado(
                bl,
                entrenamiento@,
                vecino_ils_spec(previo, posiciones, pasos),
                refinada,
            ));
            assert(es_paso_iterado(bl, entrenamiento@, previo, mejor@));
            lema_extender_iterada(bl, entrenamiento@, w_inicial@, mejores, mejor@);
            mejores = mejores.push(mejor@);
        }
    }
    proof {
        assert(cadena_iterada(bl, entrenamiento@, w_inicial@, mejores));
    }
    mejor
}

/// `w` is what an iterated local search may return from a first
/// solution of the kind `gen_inicial`, with as many local searches as
/// `MAX_EVALUACIONES` allows at `MAX_EVALUACIONES_BL` evaluations each.
pub open spec fn es_busqueda_iterada_al_azar(
    bl: Refinamiento,
    e: Seq<Dato>,
    gen_inicial: Inicial,
    w: Seq<u64>,
) -> bool {
    exists|w_inicial: Seq<u64>|
        {
            &&& pesos_validos(e, w_inicial)
            &&& normalizado(w_inicial) || todo_cero(w_inicial)
            &&& gen_inicial == Inicial::Relief ==> w_inicial == relief_spec(e)
            &&& #[trigger] es_busqueda_iterada(
                bl,
                e,
                w_inicial,
                (MAX_EVALUACIONES / MAX_EVALUACIONES_BL) as nat,
                w,
            )
        }
}

/// Iterated local search from the first solution that `gen_inicial`
/// gives, with as many local searches as `MAX_EVALUACIONES` allows at
/// `MAX_EVALUACIONES_BL` evaluations each.
pub fn iterated_local_search_general<R: Ruido>(
    entrenamiento: &[Dato],
    gen_inicial: Inicial,
    bl: Refinamiento,
    rng: &mut Isaac64Rng,
    ruido: &R,
) -> (w: Vec<u64>)
    requires
        muestra_valida(entrenamiento@),
        gen_inicial == Inicial::Relief ==> relief_aplicable(entrenamiento@),
    ensures
        pesos_validos(entrenamiento@, w@),
        gen_inicial == Inicial::Relief ==> puntuacion(entrenamiento@, w@) >= puntuacion(
            entrenamiento@,
            relief_spec(entrenamiento@),
        ),
        bl == Refinamiento::TruncadoOptimo || bl == Refinamiento::AfinidadOptima ==> normalizado(w@)
            || todo_cero(w@),
        es_busqueda_iterada_al_azar(bl, entrenamiento@, gen_inicial, w@),
        normal_o_sobre_cero(entrenamiento@, w@),
{
    let solucion = generar_inicial(gen_inicial, entrenamiento, rng);
    let w = busqueda_local_iterada_desde(
        entrenamiento,
        solucion.as_slice(),
        bl,
        MAX_EVALUACIONES / MAX_EVALUACIONES_BL,
        rng,
        ruido,
    );
    proof {
        assert(es_busqueda_iterada(
            bl,
            entrenamiento@,
            solucion@,
            (MAX_EVALUACIONES / MAX_EVALUACIONES_BL) as nat,
            w@,
        ));
    }
    w
}

/// Iterated local search with the default local search.
pub fn ils<R: Ruido>(entrenamiento: &[Dato], rng: &mut Isaac64Rng, ruido: &R) -> (w: Vec<u64>)
    requires
        muestra_valida(entrenamiento@),
    ensures
        pesos_validos(entrenamiento@, w@),
        es_busqueda_iterada_al_azar(
            (Refinamiento::BusquedaLocal {
                vecino: Vecino::Bl,
                ordenada: false,
                max_evaluaciones: MAX_EVALUACIONES_BL,
                max_ciclos: MAX_CICLOS_BL,
            }),
            entrenamiento@,
            Inicial::VectorAu,
            w@,
        ),
        normal_o_sobre_cero(entrenamiento@, w@),
{
    let bl = Refinamiento::BusquedaLocal {
        vecino: Vecino::Bl,
        ordenada: false,
        max_evaluaciones: MAX_EVALUACIONES_BL,
        max_ciclos: MAX_CICLOS_BL,
    };
    iterated_local_search_general(entrenamiento, Inicial::VectorAu, bl, rng, ruido)
}

/// Iterated local search with the local search of the alternative operator.
pub fn ils_mut2<R: Ruido>(entrenamiento: &[Dato], rng: &mut Isaac64Rng, ruido: &R) -> (w: Vec<u64>)
    requires
        muestra_valida(entrenamiento@),
    ensures
        pesos_validos(entrenamiento@, w@),
        es_busqueda_iterada_al_azar(
            (Refinamiento::BusquedaLocal {
                vecino: Vecino::BlMut2,
                ordenada: false,
                max_evaluaciones: MAX_EVALUACIONES_BL,
                max_ciclos: MAX_CICLOS_BL,
            }),
            entrenamiento@,
            Inicial::VectorAu,
            w@,
        ),
        normal_o_sobre_cero(entrenamiento@, w@),
{
    let bl = Refinamiento::BusquedaLocal {
        vecino: Vecino::BlMut2,
        ordenada: false,
        max_evaluaciones: MAX_EVALUACIONES_BL,
        max_ciclos: MAX_CICLOS_BL,
    };
    iterated_local_search_general(entrenamiento, Inicial::VectorAu, bl, rng, ruido)
}

/// Iterated local search with the best affine rescaling as its local search.
pub fn ils_afinidad<R: Ruido>(entrenamiento: &[Dato], rng: &mut Isaac64Rng, ruido: &R) -> (w: Vec<
    u64,
>)
    requires
        muestra_valida(entrenamiento@),
    ensures
        pesos_validos(entrenamiento@, w@),
        es_busqueda_iterada_al_azar(
            Refinamiento::AfinidadOptima,
            entrenamiento@,
            Inicial::VectorAu,
            w@,
        ),
        normal_o_sobre_cero(entrenamiento@, w@),
        normalizado(w@) || todo_cero(w@),
{
    iterated_local_search_general(
        entrenamiento,
        Inicial::VectorAu,
        Refinamiento::AfinidadOptima,
        rng,
        ruido,
    )
}

/// Iterated local search from the RELIEF weights with the best affine
/// rescaling as its local search.
pub fn ils_afinidad_relief<R: Ruido>(entrenamiento: &[Dato], rng: &mut Isaac64Rng, ruido: &R) -> (w:
    Vec<u64>)
    requires
        relief_aplicable(entrenamiento@),
    ensures
        pesos_validos(entrenamiento@, w@),
        es_busqueda_iterada_al_azar(
            Refinamiento::AfinidadOptima,
            entrenamiento@,
            Inicial::Relief,
            w@,
        ),
        normal_o_sobre_cero(entrenamiento@, w@),
        normalizado(w@) || todo_cero(w@),
        puntuacion(entrenamiento@, w@) >= puntuacion(entrenamiento@, relief_spec(entrenamiento@)),
{
    iterated_local_search_general(
        entrenamiento,
        Inicial::Relief,
        Refinamiento::AfinidadOptima,
        rng,
        ruido,
    )
}


/// Size of the population of differential evolution.
pub const TAMANO_DE: usize = 50;

/// Probability that a gene is crossed in differential evolution: 0.5.
pub const DE_CR: u64 = 500_000;

/// The factor of differential evolution: 0.5.
pub const DE_F: u64 = 500_000;

/// The population of differential evolution, with the position of its best member.
pub struct PoblacionDe {
    pub individuos: Vec<Individuo>,
    pub mejor: usize,
}

impl PoblacionDe {
    /// The population is not empty, `mejor` is a position in it, and all
    /// its vectors have one length and lie in `[0, UNO]`.
    pub open spec fn coherente(&self) -> bool {
        &&& self.individuos@.len() > 0
        &&& self.mejor < self.individuos@.len()
        &&& forall|i: int|
            0 <= i < self.individuos@.len() ==> (#[trigger] self.individuos@[i]).pesos@.len()
                == self.individuos@[0].pesos@.len() && a_escala(self.individuos@[i].pesos@)
    }

    /// The population is coherent, every member is a weight vector for
    /// `e` and carries its score, and none scores above the one at `mejor`.
    pub open spec fn bien_formada(&self, e: Seq<Dato>) -> bool {
        &&& self.coherente()
        &&& forall|i: int|
            0 <= i < self.individuos@.len() ==> {
                &&& pesos_validos(e, (#[trigger] self.individuos@[i]).pesos@)
                &&& self.individuos@[i].aptitud == puntuacion(e, self.individuos@[i].pesos@)
                &&& self.individuos@[i].aptitud <= self.individuos@[self.mejor as int].aptitud
            }
    }

    /// Decides `coherente`.
    pub fn es_coherente(&self) -> (b: bool)
        ensures
            b == self.coherente(),
    {
        if self.individuos.len() == 0 || self.mejor >= self.individuos.len() {
            return false;
        }
        let n: usize = self.individuos[0].pesos.len();
        let mut i: usize = 0;
        while i < self.individuos.len()
            invariant
                i <= self.individuos@.len(),
                self.individuos@.len() > 0,
                n == self.individuos@[0].pesos@.len(),
                forall|j: int|
                    0 <= j < i ==> (#[trigger] self.individuos@[j]).pesos@.len() == n && a_escala(
                        self.individuos@[j].pesos@,
                    ),
            decreases self.individuos@.len() - i,
        {
            let pesos = &self.individuos[i].pesos;
            if pesos.len() != n || !esta_a_escala(pesos.as_slice()) {
                return false;
            }
            i += 1;
        }
        true
    }

    /// A copy of the population.
    pub fn clonar(&self) -> (r: PoblacionDe)
        ensures
            r.mejor == self.mejor,
            r.individuos@.len() == self.individuos@.len(),
            forall|i: int|
                0 <= i < self.individuos@.len() ==> (#[trigger] r.individuos@[i]).aptitud
                    == self.individuos@[i].aptitud && r.individuos@[i].pesos@
                    == self.individuos@[i].pesos@,
    {
        let mut individuos: Vec<Individuo> = Vec::new();
        let mut i: usize = 0;
        while i < self.individuos.len()
            invariant
                i <= self.individuos@.len(),
                individuos@.len() == i,
                forall|j: int|
                    0 <= j < i ==> (#[trigger] individuos@[j]).aptitud == self.individuos@[j].aptitud
                        && individuos@[j].pesos@ == self.individuos@[j].pesos@,
            decreases self.individuos@.len() - i,
        {
            let pesos = self.individuos[i].pesos.clone();
            assert(pesos@ == self.individuos@[i as int].pesos@);
            individuos.push(Individuo { aptitud: self.individuos[i].aptitud, pesos });
            i += 1;
        }
        PoblacionDe { individuos, mejor: self.mejor }
    }
}

/// One gene of DE/rand/1: `r1 + F * (r2 - r3)`, rounded down and confined to `[0, UNO]`.
pub open spec fn gen_rand_1_spec(r1: u64, r2: u64, r3: u64) -> int {
    recortar_spec((r1 * UNO + DE_F * (r2 - r3)) / (UNO as int))
}

/// One gene of DE/current-to-best/1: `x + F * (mejor - x + r1 - r2)`,
/// rounded down and confined to `[0, UNO]`.
pub open spec fn gen_ctb_1_spec(x: u64, mejor: u64, r1: u64, r2: u64) -> int {
    recortar_spec((x * UNO + DE_F * (mejor - x + r1 - r2)) / (UNO as int))
}

/// A quantity in millionths of a millionth, rounded down to millionths
/// and confined to `[0, UNO]`.
fn reducir(total: i128) -> (r: u64)
    ensures
        r == recortar_spec(total as int / (UNO as int)),
        r <= UNO,
{
    if total <= 0 {
        0
    } else {
        let q: i128 = total / (UNO as i128);
        if q > UNO as i128 {
            UNO
        } else {
            q as u64
        }
    }
}

/// The products of the gene formulas stay far within 128 bits.
proof fn lema_productos_acotados(x: u64, d: int)
    requires
        -0x2_0000_0000_0000_0000 <= d <= 0x2_0000_0000_0000_0000,
    ensures
        0 <= x * UNO <= 0x1_0000_0000_0000_0000 * 1_000_000,
        -0x2_0000_0000_0000_0000 * 500_000 <= DE_F * d <= 0x2_0000_0000_0000_0000 * 500_000,
{
    assert(0 <= x * UNO <= 0x1_0000_0000_0000_0000 * 1_000_000) by (nonlinear_arith)
        requires
            0 <= x <= 0x1_0000_0000_0000_0000,
            UNO == 1_000_000,
    ;
    assert(-0x2_0000_0000_0000_0000 * 500_000 <= DE_F * d <= 0x2_0000_0000_0000_0000 * 500_000)
        by (nonlinear_arith)
        requires
            -0x2_0000_0000_0000_0000 <= d <= 0x2_0000_0000_0000_0000,
            DE_F == 500_000,
    ;
}

/// Computes `gen_rand_1_spec`.
pub fn gen_rand_1(r1: u64, r2: u64, r3: u64) -> (r: u64)
    ensures
        r == gen_rand_1_spec(r1, r2, r3),
        r <= UNO,
{
    let d: i128 = r2 as i128 - r3 as i128;
    proof {
        lema_productos_acotados(r1, d as int);
    }
    reducir(r1 as i128 * UNO as i128 + DE_F as i128 * d)
}

/// Computes `gen_ctb_1_spec`.
pub fn gen_ctb_1(x: u64, mejor: u64, r1: u64, r2: u64) -> (r: u64)
    ensures
        r == gen_ctb_1_spec(x, mejor, r1, r2),
        r <= UNO,
{
    let d: i128 = mejor as i128 - x as i128 + r1 as i128 - r2 as i128;
    proof {
        lema_productos_acotados(x, d as int);
    }
    reducir(x as i128 * UNO as i128 + DE_F as i128 * d)
}

/// The mutation operators of differential evolution.
#[derive(Clone, Copy, Debug, PartialEq, Eq, Structural)]
pub enum OperadorDe {
    /// DE/rand/1, `op_rand_1`.
    Rand1,
    /// DE/current-to-best/1, `op_ctb_1`.
    Ctb1,
}

/// The trial vector for member `actual`: at each position that `mascara`
/// marks, the gene that the operator builds from the members `r1`, `r2`
/// and `r3`; elsewhere the gene of `actual`.  DE/current-to-best/1 takes
/// no third member.
pub open spec fn cruzar_spec(
    operador: OperadorDe,
    poblacion: PoblacionDe,
    actual: int,
    r1: int,
    r2: int,
    r3: int,
    mascara: Seq<bool>,
) -> Seq<u64> {
    let x = poblacion.individuos@[actual].pesos@;
    Seq::new(
        x.len(),
        |g: int|
            if mascara[g] {
                match operador {
                    OperadorDe::Rand1 => gen_rand_1_spec(
                        poblacion.individuos@[r1].pesos@[g],
                        poblacion.individuos@[r2].pesos@[g],
                        poblacion.individuos@[r3].pesos@[g],
                    ) as u64,
                    OperadorDe::Ctb1 => gen_ctb_1_spec(
                        x[g],
                        poblacion.individuos@[poblacion.mejor as int].pesos@[g],
                        poblacion.individuos@[r1].pesos@[g],
                        poblacion.individuos@[r2].pesos@[g],
                    ) as u64,
                }
            } else {
                x[g]
            },
    )
}

/// Builds the trial vector for member `actual` from the members `r1`,
/// `r2` and `r3`, each gene crossed with probability `DE_CR`.  Returns
/// the score of `actual` beside its unchanged vector when no gene was
/// crossed, and no score beside the trial vector otherwise.
fn cruzar(
    operador: OperadorDe,
    poblacion: &PoblacionDe,
    actual: usize,
    r1: usize,
    r2: usize,
    r3: usize,
    rng: &mut Isaac64Rng,
) -> (r: (Option<u64>, Vec<u64>))
    requires
        poblacion.coherente(),
        actual < poblacion.individuos@.len(),
        r1 < poblacion.individuos@.len(),
        r2 < poblacion.individuos@.len(),
        r3 < poblacion.individuos@.len(),
    ensures
        exists|mascara: Seq<bool>|
            mascara.len() == r.1@.len() && #[trigger] cruzar_spec(
                operador,
                *poblacion,
                actual as int,
                r1 as int,
                r2 as int,
                r3 as int,
                mascara,
            ) == r.1@ && (r.0 is Some <==> sin_marcas(mascara)),
        r.0 is Some ==> r.0 == Some(poblacion.individuos@[actual as int].aptitud) && r.1@
            == poblacion.individuos@[actual as int].pesos@,
        r.1@.len() == poblacion.individuos@[actual as int].pesos@.len(),
        a_escala(r.1@),
{
    let x = &poblacion.individuos[actual].pesos;
    let num_genes: usize = x.len();
    let mut marca: Option<u64> = Some(poblacion.individuos[actual].aptitud);
    let mut nuevo: Vec<u64> = Vec::new();
    let ghost mut mascara: Seq<bool> = Seq::empty();
    let mut g: usize = 0;
    assert(poblacion.individuos@[actual as int].pesos@.len() == poblacion.individuos@[0].pesos@.len());
    assert(poblacion.individuos@[r1 as int].pesos@.len() == poblacion.individuos@[0].pesos@.len());
    assert(poblacion.individuos@[r2 as int].pesos@.len() == poblacion.individuos@[0].pesos@.len());
    assert(poblacion.individuos@[r3 as int].pesos@.len() == poblacion.individuos@[0].pesos@.len());
    assert(poblacion.individuos@[poblacion.mejor as int].pesos@.len()
        == poblacion.individuos@[0].pesos@.len());
    while g < num_genes
        invariant
            g <= num_genes,
            poblacion.coherente(),
            actual < poblacion.individuos@.len(),
            r1 < poblacion.individuos@.len(),
            r2 < poblacion.individuos@.len(),
            r3 < poblacion.individuos@.len(),
            *x == poblacion.individuos@[actual as int].pesos,
            num_genes == x@.len(),
            num_genes == poblacion.individuos@[r1 as int].pesos@.len(),
            num_genes == poblacion.individuos@[r2 as int].pesos@.len(),
            num_genes == poblacion.individuos@[r3 as int].pesos@.len(),
            num_genes == poblacion.individuos@[poblacion.mejor as int].pesos@.len(),
            nuevo@.len() == g,
            mascara.len() == g,
            a_escala(nuevo@),
            marca is Some ==> marca == Some(poblacion.individuos@[actual as int].aptitud),
            marca is Some <==> forall|h: int| 0 <= h < g ==> !#[trigger] mascara[h],
            forall|h: int| 0 <= h < g && !mascara[h] ==> #[trigger] nuevo@[h] == x@[h],
            forall|h: int|
                0 <= h < g && mascara[h] ==> #[trigger] nuevo@[h] == (match operador {
                    OperadorDe::Rand1 => gen_rand_1_spec(
                        poblacion.individuos@[r1 as int].pesos@[h],
                        poblacion.individuos@[r2 as int].pesos@[h],
                        poblacion.individuos@[r3 as int].pesos@[h],
                    ) as u64,
                    OperadorDe::Ctb1 => gen_ctb_1_spec(
                        x@[h],
                        poblacion.individuos@[poblacion.mejor as int].pesos@[h],
                        poblacion.individuos@[r1 as int].pesos@[h],
                        poblacion.individuos@[r2 as int].pesos@[h],
                    ) as u64,
                }),
        decreases num_genes - g,
    {
        let cruzado: bool = uniforme(rng) < DE_CR;
        let ghost previa = mascara;
        proof {
            mascara = mascara.push(cruzado);
            assert(forall|h: int| 0 <= h < g ==> mascara[h] == previa[h]);
        }
        if cruzado {
            marca = None;
            let v: u64 = match operador {
                OperadorDe::Rand1 => gen_rand_1(
                    poblacion.individuos[r1].pesos[g],
                    poblacion.individuos[r2].pesos[g],
                    poblacion.individuos[r3].pesos[g],
                ),
                OperadorDe::Ctb1 => gen_ctb_1(
                    x[g],
                    poblacion.individuos[poblacion.mejor].pesos[g],
                    poblacion.individuos[r1].pesos[g],
                    poblacion.individuos[r2].pesos[g],
                ),
            };
            nuevo.push(v);
            assert(mascara[g as int]);
        } else {
            nuevo.push(x[g]);
        }
        g += 1;
    }
    proof {
        assert(nuevo@ =~= cruzar_spec(
            operador,
            *poblacion,
            actual as int,
            r1 as int,
            r2 as int,
            r3 as int,
            mascara,
        ));
        if marca is Some {
            assert(nuevo@ =~= x@);
        }
    }
    (marca, nuevo)
}


/// The member `actual` as it stands: its score beside a copy of its vector.
fn sin_cambio(poblacion: &PoblacionDe, actual: usize) -> (r: (Option<u64>, Vec<u64>))
    requires
        poblacion.coherente(),
        actual < poblacion.individuos@.len(),
    ensures
        r.0 == Some(poblacion.individuos@[actual as int].aptitud),
        r.1@ == poblacion.individuos@[actual as int].pesos@,
        a_escala(r.1@),
{
    let pesos = poblacion.individuos[actual].pesos.clone();
    assert(pesos@ == poblacion.individuos@[actual as int].pesos@);
    (Some(poblacion.individuos[actual].aptitud), pesos)
}

/// Whether a trial vector can be built for member `actual`: whether
/// the population holds the other members that the operator needs,
/// different from `actual` and from each other (and, for
/// DE/current-to-best/1, from the best member).
pub open spec fn hay_prueba(operador: OperadorDe, poblacion: PoblacionDe, actual: int) -> bool {
    match operador {
        OperadorDe::Rand1 => poblacion.individuos@.len() >= 4,
        OperadorDe::Ctb1 => poblacion.individuos@.len() >= 4 || (poblacion.individuos@.len() == 3
            && actual == poblacion.mejor),
    }
}

/// No position is marked.
pub open spec fn sin_marcas(mascara: Seq<bool>) -> bool {
    forall|g: int| 0 <= g < mascara.len() ==> !#[trigger] mascara[g]
}

/// What a mutation operator returns for member `actual`.  Where no
/// trial vector can be built, the member comes back unchanged, with
/// its score.  Where one can, it is built from members that differ
/// from `actual` and from each other (and, for DE/current-to-best/1,
/// from the best member), at the genes that some marks pick; it comes
/// without a score, unless no gene was marked: then it is the member
/// unchanged, with its score.
pub open spec fn resultado_de(
    operador: OperadorDe,
    poblacion: PoblacionDe,
    actual: int,
    r: (Option<u64>, Vec<u64>),
) -> bool {
    &&& r.1@.len() == poblacion.individuos@[actual].pesos@.len()
    &&& a_escala(r.1@)
    &&& r.0 is Some ==> r.0 == Some(poblacion.individuos@[actual].aptitud) && r.1@
        == poblacion.individuos@[actual].pesos@
    &&& !hay_prueba(operador, poblacion, actual) ==> r.0 is Some
    &&& hay_prueba(operador, poblacion, actual) ==> exists|
        r1: int,
        r2: int,
        r3: int,
        mascara: Seq<bool>,
    |
        {
            &&& 0 <= r1 < poblacion.individuos@.len()
            &&& 0 <= r2 < poblacion.individuos@.len()
            &&& 0 <= r3 < poblacion.individuos@.len()
            &&& r1 != actual && r2 != actual && r1 != r2
            &&& operador == OperadorDe::Rand1 ==> r3 != actual && r3 != r1 && r3 != r2
            &&& operador == OperadorDe::Ctb1 ==> r1 != poblacion.mejor && r2 != poblacion.mejor
            &&& mascara.len() == r.1@.len()
            &&& #[trigger] cruzar_spec(operador, poblacion, actual, r1, r2, r3, mascara) == r.1@
            &&& r.0 is Some <==> sin_marcas(mascara)
        }
}

/// The mutation of DE/rand/1 for member `actual`: three members are
/// drawn, different from it and from each other, and each gene is
/// crossed with probability `DE_CR`.  A population of fewer than four
/// members has no such three, and the member is returned unchanged.
pub fn op_rand_1(poblacion: &PoblacionDe, actual: usize, rng: &mut Isaac64Rng) -> (r: (
    Option<u64>,
    Vec<u64>,
))
    requires
        poblacion.coherente(),
        actual < poblacion.individuos@.len(),
    ensures
        resultado_de(OperadorDe::Rand1, *poblacion, actual as int, r),
        poblacion.individuos@.len() < 4 ==> r.0 is Some,
{
    let tam_poblacion: usize = poblacion.individuos.len();
    let mut excluidos: Vec<usize> = Vec::new();
    excluidos.push(actual);
    assert(excluidos@[0] == actual);
    let r1 = match aleatorio_distinto(rng, tam_poblacion, excluidos.as_slice()) {
        Some(p) => p,
        None => {
            return sin_cambio(poblacion, actual);
        },
    };
    excluidos.push(r1);
    assert(excluidos@[0] == actual && excluidos@[1] == r1);
    let r2 = match aleatorio_distinto(rng, tam_poblacion, excluidos.as_slice()) {
        Some(p) => p,
        None => {
            return sin_cambio(poblacion, actual);
        },
    };
    excluidos.push(r2);
    assert(excluidos@[0] == actual && excluidos@[1] == r1 && excluidos@[2] == r2);
    let r3 = match aleatorio_distinto(rng, tam_poblacion, excluidos.as_slice()) {
        Some(p) => p,
        None => {
            return sin_cambio(poblacion, actual);
        },
    };
    let r = cruzar(OperadorDe::Rand1, poblacion, actual, r1, r2, r3, rng);
    proof {
        let mascara = choose|mascara: Seq<bool>|
            mascara.len() == r.1@.len() && #[trigger] cruzar_spec(
                OperadorDe::Rand1,
                *poblacion,
                actual as int,
                r1 as int,
                r2 as int,
                r3 as int,
                mascara,
            ) == r.1@ && (r.0 is Some <==> sin_marcas(mascara));
        assert(cruzar_spec(
            OperadorDe::Rand1,
            *poblacion,
            actual as int,
            r1 as int,
            r2 as int,
            r3 as int,
            mascara,
        ) == r.1@);
    }
    r
}

/// The mutation of DE/current-to-best/1 for member `actual`: two
/// members are drawn, different from it, from the best member and from
/// each other, and each gene is crossed with probability `DE_CR`.  A
/// population of fewer than three members has no such two, and the member
/// is returned unchanged.
pub fn op_ctb_1(poblacion: &PoblacionDe, actual: usize, rng: &mut Isaac64Rng) -> (r: (
    Option<u64>,
    Vec<u64>,
))
    requires
        poblacion.coherente(),
        actual < poblacion.individuos@.len(),
    ensures
        resultado_de(OperadorDe::Ctb1, *poblacion, actual as int, r),
        poblacion.individuos@.len() < 3 ==> r.0 is Some,
{
    let tam_poblacion: usize = poblacion.individuos.len();
    let mut excluidos: Vec<usize> = Vec::new();
    excluidos.push(actual);
    if poblacion.mejor != actual {
        excluidos.push(poblacion.mejor);
    }
    assert(excluidos@[0] == actual);
    assert(excluidos@.contains(actual));
    assert(excluidos@.contains(poblacion.mejor)) by {
        if poblacion.mejor != actual {
            assert(excluidos@[1] == poblacion.mejor);
        }
    }
    let ghost primeros = excluidos@;
    let r1 = match aleatorio_distinto(rng, tam_poblacion, excluidos.as_slice()) {
        Some(p) => p,
        None => {
            return sin_cambio(poblacion, actual);
        },
    };
    excluidos.push(r1);
    assert(excluidos@.contains(actual)) by {
        assert(excluidos@[0] == actual);
    }
    assert(excluidos@.contains(poblacion.mejor)) by {
        if poblacion.mejor != actual {
            assert(excluidos@[1] == poblacion.mejor);
        }
    }
    assert(excluidos@.contains(r1)) by {
        assert(excluidos@[excluidos@.len() - 1] == r1);
    }
    assert(!primeros.contains(r1));
    assert(r1 != actual && r1 != poblacion.mejor);
    let r2 = match aleatorio_distinto(rng, tam_poblacion, excluidos.as_slice()) {
        Some(p) => p,
        None => {
            return sin_cambio(poblacion, actual);
        },
    };
    let r = cruzar(OperadorDe::Ctb1, poblacion, actual, r1, r2, r1, rng);
    proof {
        let mascara = choose|mascara: Seq<bool>|
            mascara.len() == r.1@.len() && #[trigger] cruzar_spec(
                OperadorDe::Ctb1,
                *poblacion,
                actual as int,
                r1 as int,
                r2 as int,
                r1 as int,
                mascara,
            ) == r.1@ && (r.0 is Some <==> sin_marcas(mascara));
        assert(cruzar_spec(
            OperadorDe::Ctb1,
            *poblacion,
            actual as int,
            r1 as int,
            r2 as int,
            r1 as int,
            mascara,
        ) == r.1@);
    }
    r
}

/// Applies a mutation operator to member `actual`.
pub fn aplicar_operador_de(
    operador: OperadorDe,
    poblacion: &PoblacionDe,
    actual: usize,
    rng: &mut Isaac64Rng,
) -> (r: (Option<u64>, Vec<u64>))
    requires
        poblacion.coherente(),
        actual < poblacion.individuos@.len(),
    ensures
        resultado_de(operador, *poblacion, actual as int, r),
        poblacion.individuos@.len() < 3 ==> r.0 is Some,
{
    match operador {
        OperadorDe::Rand1 => op_rand_1(poblacion, actual, rng),
        OperadorDe::Ctb1 => op_ctb_1(poblacion, actual, rng),
    }
}

/// What a member of the population of differential evolution holds,
/// as mathematical values.
pub ghost struct IndividuoModelo {
    pub pesos: Seq<u64>,
    pub aptitud: u64,
}

/// The population of differential evolution as mathematical values.
pub ghost struct PoblacionDeModelo {
    pub individuos: Seq<IndividuoModelo>,
    pub mejor: int,
}

/// What the population holds.
pub open spec fn modelo_de(p: PoblacionDe) -> PoblacionDeModelo {
    PoblacionDeModelo {
        individuos: Seq::new(
            p.individuos@.len(),
            |i: int| IndividuoModelo { pesos: p.individuos@[i].pesos@, aptitud: p.individuos@[i].aptitud },
        ),
        mejor: p.mejor as int,
    }
}

/// The population after member `i` has met what the operator returned
/// for it: what `relevar` does.
pub open spec fn relevado(
    e: Seq<Dato>,
    m: PoblacionDeModelo,
    i: int,
    prueba: (Option<u64>, Vec<u64>),
) -> PoblacionDeModelo {
    if prueba.0 is None && puntuacion(e, prueba.1@) > m.individuos[i].aptitud {
        PoblacionDeModelo {
            individuos: m.individuos.update(
                i,
                IndividuoModelo { pesos: prueba.1@, aptitud: puntuacion(e, prueba.1@) as u64 },
            ),
            mejor: if puntuacion(e, prueba.1@) > m.individuos[m.mejor].aptitud {
                i
            } else {
                m.mejor
            },
        }
    } else {
        m
    }
}

/// A generation under way: the next population as it stands, and the
/// evaluations made.
pub ghost struct PasoGeneracionDe {
    pub poblacion: PoblacionDeModelo,
    pub hechas: nat,
}

/// The generation from the population `a` after its first `n` members
/// had their turn, for the results `rs` of the operator, one for each
/// member.  A member has its turn only while evaluations are left; a
/// result without a score costs one.
pub open spec fn generacion_de_hasta(
    e: Seq<Dato>,
    a: PoblacionDeModelo,
    rs: Seq<(Option<u64>, Vec<u64>)>,
    restantes: nat,
    n: nat,
) -> PasoGeneracionDe
    decreases n,
{
    if n == 0 {
        PasoGeneracionDe { poblacion: a, hechas: 0 }
    } else {
        let previo = generacion_de_hasta(e, a, rs, restantes, (n - 1) as nat);
        if previo.hechas < restantes {
            PasoGeneracionDe {
                poblacion: relevado(e, previo.poblacion, n - 1, rs[n - 1]),
                hechas: previo.hechas + (if rs[n - 1].0 is None {
                    1nat
                } else {
                    0nat
                }),
            }
        } else {
            previo
        }
    }
}

/// The first `n` turns depend on the first `n` results alone.
proof fn lema_generacion_de_prefijo(
    e: Seq<Dato>,
    a: PoblacionDeModelo,
    rs: Seq<(Option<u64>, Vec<u64>)>,
    ts: Seq<(Option<u64>, Vec<u64>)>,
    restantes: nat,
    n: nat,
)
    requires
        forall|j: int| 0 <= j < n ==> rs[j] == ts[j],
    ensures
        generacion_de_hasta(e, a, rs, restantes, n) == generacion_de_hasta(e, a, ts, restantes, n),
    decreases n,
{
    if n > 0 {
        lema_generacion_de_prefijo(e, a, rs, ts, restantes, (n - 1) as nat);
    }
}

/// Once the evaluations are spent nothing changes any more.
proof fn lema_generacion_de_agotada(
    e: Seq<Dato>,
    a: PoblacionDeModelo,
    rs: Seq<(Option<u64>, Vec<u64>)>,
    restantes: nat,
    n0: nat,
    n: nat,
)
    requires
        n0 <= n,
        generacion_de_hasta(e, a, rs, restantes, n0).hechas >= restantes,
    ensures
        generacion_de_hasta(e, a, rs, restantes, n) == generacion_de_hasta(e, a, rs, restantes, n0),
    decreases n,
{
    if n > n0 {
        lema_generacion_de_agotada(e, a, rs, restantes, n0, (n - 1) as nat);
    }
}

/// `nuevo` may stand at position `i` after a generation from
/// `poblacion`: it is the member that stood there, or a trial vector
/// built for it that scores strictly above it.
pub open spec fn es_relevo_de(
    operador: OperadorDe,
    e: Seq<Dato>,
    poblacion: PoblacionDe,
    i: int,
    nuevo: Individuo,
) -> bool {
    ||| nuevo.pesos@ == poblacion.individuos@[i].pesos@ && nuevo.aptitud
        == poblacion.individuos@[i].aptitud
    ||| {
        &&& puntuacion(e, nuevo.pesos@) > poblacion.individuos@[i].aptitud
        &&& exists|r: (Option<u64>, Vec<u64>)|
            r.0 is None && #[trigger] resultado_de(operador, poblacion, i, r) && r.1@
                == nuevo.pesos@
    }
}

/// Whether the operator can build trial vectors in a population of
/// `tamano` members.
pub open spec fn puede_probar(operador: OperadorDe, tamano: nat) -> bool {
    tamano >= 4 || (tamano == 3 && operador == OperadorDe::Ctb1)
}

/// For how many members of a population of `tamano` the operator can
/// build a trial vector: for all of four or more, and for the best one
/// of three under DE/current-to-best/1.
pub open spec fn pruebas_posibles(operador: OperadorDe, tamano: nat) -> nat {
    if tamano >= 4 {
        tamano
    } else if tamano == 3 && operador == OperadorDe::Ctb1 {
        1
    } else {
        0
    }
}

/// `b` may follow `a` after one generation with `restantes`
/// evaluations left, of which it made `hechas`: member by member, and
/// `b` is well formed again.
pub open spec fn es_generacion_de(
    operador: OperadorDe,
    e: Seq<Dato>,
    a: PoblacionDe,
    b: PoblacionDe,
    restantes: nat,
    hechas: nat,
) -> bool {
    &&& b.individuos@.len() == a.individuos@.len()
    &&& b.bien_formada(e)
    &&& hechas <= restantes
    &&& hechas <= pruebas_posibles(operador, a.individuos@.len())
    &&& forall|i: int|
        0 <= i < a.individuos@.len() ==> es_relevo_de(
            operador,
            e,
            a,
            i,
            #[trigger] b.individuos@[i],
        )
    &&& hechas == 0 ==> forall|i: int|
        0 <= i < a.individuos@.len() ==> (#[trigger] b.individuos@[i]).pesos@
            == a.individuos@[i].pesos@
    &&& exists|rs: Seq<(Option<u64>, Vec<u64>)>|
        {
            &&& rs.len() == a.individuos@.len()
            &&& forall|i: int|
                0 <= i < rs.len() && generacion_de_hasta(
                    e,
                    modelo_de(a),
                    rs,
                    restantes,
                    i as nat,
                ).hechas < restantes ==> resultado_de(operador, a, i, #[trigger] rs[i])
            &&& #[trigger] generacion_de_hasta(e, modelo_de(a), rs, restantes, rs.len())
                == (PasoGeneracionDe { poblacion: modelo_de(b), hechas })
        }
}

/// Member `i` meets what the operator returned for it.  A trial
/// vector, which comes without a score, is evaluated, and takes the
/// place of the member if it scores strictly above it; it becomes the
/// best member if it scores strictly above the best.  A member that
/// came back unchanged, with its score, is not evaluated.  Returns
/// whether an evaluation was made.
pub fn relevar(
    entrenamiento: &[Dato],
    nueva: &mut PoblacionDe,
    i: usize,
    prueba: (Option<u64>, Vec<u64>),
) -> (evaluada: bool)
    requires
        muestra_valida(entrenamiento@),
        old(nueva).bien_formada(entrenamiento@),
        i < old(nueva).individuos@.len(),
        pesos_validos(entrenamiento@, prueba.1@),
    ensures
        evaluada == (prueba.0 is None),
        modelo_de(*final(nueva)) == relevado(
            entrenamiento@,
            modelo_de(*old(nueva)),
            i as int,
            prueba,
        ),
        final(nueva).bien_formada(entrenamiento@),
        final(nueva).individuos@.len() == old(nueva).individuos@.len(),
        forall|j: int|
            0 <= j < old(nueva).individuos@.len() && j != i ==> #[trigger] final(nueva).individuos@[j] == old(nueva).individuos@[j],
        prueba.0 is None && puntuacion(entrenamiento@, prueba.1@) > old(nueva).individuos@[i as int].aptitud ==> {
            &&& final(nueva).individuos@[i as int].pesos@ == prueba.1@
            &&& final(nueva).individuos@[i as int].aptitud == puntuacion(
                entrenamiento@,
                prueba.1@,
            )
            &&& final(nueva).mejor == (if puntuacion(entrenamiento@, prueba.1@) > old(nueva).individuos@[old(nueva).mejor as int].aptitud {
                i
            } else {
                old(nueva).mejor
            })
        },
        !(prueba.0 is None && puntuacion(entrenamiento@, prueba.1@) > old(nueva).individuos@[i as int].aptitud) ==> *final(nueva) == *old(nueva),
{
    let ghost e = entrenamiento@;
    let tam: usize = nueva.individuos.len();
    match prueba.0 {
        Some(_) => false,
        None => {
            let pesos = prueba.1;
            proof {
                lema_muestra_evaluable(e, pesos@);
            }
            let ev: u64 = evaluar(entrenamiento, pesos.as_slice());
            if ev > nueva.individuos[i].aptitud {
                let supera: bool = ev > nueva.individuos[nueva.mejor].aptitud;
                let ghost previa = nueva.individuos@;
                nueva.individuos.set(i, Individuo { aptitud: ev, pesos });
                if supera {
                    nueva.mejor = i;
                }
                proof {
                    assert forall|j: int| 0 <= j < tam implies {
                        &&& pesos_validos(e, (#[trigger] nueva.individuos@[j]).pesos@)
                        &&& nueva.individuos@[j].aptitud == puntuacion(
                            e,
                            nueva.individuos@[j].pesos@,
                        )
                        &&& nueva.individuos@[j].aptitud
                            <= nueva.individuos@[nueva.mejor as int].aptitud
                        &&& nueva.individuos@[j].pesos@.len() == nueva.individuos@[0].pesos@.len()
                        &&& a_escala(nueva.individuos@[j].pesos@)
                    } by {
                        assert(pesos_validos(e, previa[j].pesos@));
                        assert(pesos_validos(e, previa[0].pesos@));
                        if j != i {
                            assert(nueva.individuos@[j] == previa[j]);
                        }
                    }
                    assert(modelo_de(*nueva).individuos =~= relevado(
                        e,
                        modelo_de(*old(nueva)),
                        i as int,
                        (None::<u64>, nueva.individuos@[i as int].pesos),
                    ).individuos) by {
                        assert forall|j: int| 0 <= j < tam && j != i implies nueva.individuos@[j]
                            == previa[j] by {}
                    }
                }
            }
            true
        },
    }
}

/// One generation of differential evolution.  Every member in turn gets
/// a trial vector built from the population as it stood before the
/// generation; a trial that scores strictly above the member takes its
/// place in the next population.  Each trial costs one of the
/// `restantes` evaluations, and the generation stops when none is left.
/// Returns the next population and the evaluations made.
pub fn generacion_de(
    entrenamiento: &[Dato],
    poblacion: &PoblacionDe,
    operador: OperadorDe,
    restantes: usize,
    rng: &mut Isaac64Rng,
) -> (r: (PoblacionDe, usize))
    requires
        muestra_valida(entrenamiento@),
        poblacion.bien_formada(entrenamiento@),
    ensures
        r.0.bien_formada(entrenamiento@),
        r.0.individuos@.len() == poblacion.individuos@.len(),
        forall|i: int|
            0 <= i < poblacion.individuos@.len() ==> (#[trigger] r.0.individuos@[i]).aptitud
                >= poblacion.individuos@[i].aptitud,
        r.1 <= restantes,
        r.1 <= poblacion.individuos@.len(),
        r.1 == 0 ==> forall|i: int|
            0 <= i < poblacion.individuos@.len() ==> (#[trigger] r.0.individuos@[i]).pesos@
                == poblacion.individuos@[i].pesos@,
        poblacion.individuos@.len() < 3 ==> r.1 == 0,
        es_generacion_de(
            operador,
            entrenamiento@,
            *poblacion,
            r.0,
            restantes as nat,
            r.1 as nat,
        ),
{
    let ghost e = entrenamiento@;
    let tam: usize = poblacion.individuos.len();
    let mut nueva = poblacion.clonar();
    let mut evaluadas: usize = 0;
    let mut i: usize = 0;
    assert(nueva.bien_formada(e));
    let ghost a = modelo_de(*poblacion);
    let ghost mut rs: Seq<(Option<u64>, Vec<u64>)> = Seq::empty();
    assert(modelo_de(nueva).individuos =~= a.individuos);
    while i < tam && evaluadas < restantes
        invariant
            i <= tam,
            e == entrenamiento@,
            tam == poblacion.individuos@.len(),
            muestra_valida(e),
            poblacion.bien_formada(e),
            nueva.bien_formada(e),
            nueva.individuos@.len() == tam,
            evaluadas <= i,
            evaluadas <= restantes,
            forall|j: int|
                0 <= j < tam ==> (#[trigger] nueva.individuos@[j]).aptitud
                    >= poblacion.individuos@[j].aptitud,
            evaluadas == 0 ==> forall|j: int|
                0 <= j < tam ==> (#[trigger] nueva.individuos@[j]).pesos@
                    == poblacion.individuos@[j].pesos@,
            tam < 3 ==> evaluadas == 0,
            !puede_probar(operador, tam as nat) ==> evaluadas == 0,
            tam == 3 && i <= poblacion.mejor ==> evaluadas == 0,
            tam == 3 ==> evaluadas <= 1,
            forall|j: int|
                i <= j < tam ==> (#[trigger] nueva.individuos@[j]).aptitud
                    == poblacion.individuos@[j].aptitud,
            forall|j: int|
                0 <= j < tam ==> es_relevo_de(
                    operador,
                    e,
                    *poblacion,
                    j,
                    #[trigger] nueva.individuos@[j],
                ),
            a == modelo_de(*poblacion),
            rs.len() == i,
            forall|j: int|
                0 <= j < i ==> resultado_de(operador, *poblacion, j, #[trigger] rs[j]),
            generacion_de_hasta(e, a, rs, restantes as nat, i as nat) == (PasoGeneracionDe {
                poblacion: modelo_de(nueva),
                hechas: evaluadas as nat,
            }),
        decreases tam - i,
    {
        let nuevo_c = aplicar_operador_de(operador, poblacion, i, rng);
        let ghost prueba = nuevo_c;
        let ghost previa = nueva.individuos@;
        proof {
            assert(pesos_validos(e, poblacion.individuos@[i as int].pesos@));
            assert(previa[i as int].aptitud == poblacion.individuos@[i as int].aptitud);
        }
        let ghost rs_previos = rs;
        let ghost modelo_previo = modelo_de(nueva);
        let evaluada: bool = relevar(entrenamiento, &mut nueva, i, nuevo_c);
        if evaluada {
            evaluadas = evaluadas + 1;
        }
        proof {
            rs = rs.push(prueba);
            lema_generacion_de_prefijo(e, a, rs_previos, rs, restantes as nat, i as nat);
            assert(rs[i as int] == prueba);
            assert(modelo_de(nueva) == relevado(e, modelo_previo, i as int, prueba));
            assert forall|j: int| 0 <= j < i + 1 implies resultado_de(
                operador,
                *poblacion,
                j,
                #[trigger] rs[j],
            ) by {
                if j < i {
                    assert(rs[j] == rs_previos[j]);
                }
            }
            assert forall|j: int| 0 <= j < tam implies (#[trigger] nueva.individuos@[j]).aptitud
                >= poblacion.individuos@[j].aptitud by {
                if j != i {
                    assert(nueva.individuos@[j] == previa[j]);
                }
            }
            assert forall|j: int| i + 1 <= j < tam implies (#[trigger] nueva.individuos@[j]).aptitud
                == poblacion.individuos@[j].aptitud by {
                assert(nueva.individuos@[j] == previa[j]);
            }
            assert forall|j: int| 0 <= j < tam implies es_relevo_de(
                operador,
                e,
                *poblacion,
                j,
                #[trigger] nueva.individuos@[j],
            ) by {
                if j != i {
                    assert(nueva.individuos@[j] == previa[j]);
                } else {
                    assert(resultado_de(operador, *poblacion, i as int, prueba));
                }
            }
            if evaluadas == 0 {
                assert forall|j: int| 0 <= j < tam implies (#[trigger] nueva.individuos@[j]).pesos@
                    == poblacion.individuos@[j].pesos@ by {
                    assert(nueva.individuos@[j] == previa[j]);
                }
            }
        }
        i += 1;
    }
    proof {
        let relleno = Seq::new(
            (tam - i) as nat,
            |k: int| (Some(0u64), poblacion.individuos@[0].pesos),
        );
        let todos = rs + relleno;
        lema_generacion_de_prefijo(e, a, rs, todos, restantes as nat, i as nat);
        if i < tam {
            lema_generacion_de_agotada(e, a, todos, restantes as nat, i as nat, tam as nat);
        }
        assert forall|j: int|
            0 <= j < todos.len() && generacion_de_hasta(e, a, todos, restantes as nat, j as nat).hechas
                < restantes implies resultado_de(operador, *poblacion, j, #[trigger] todos[j]) by {
            if j < i {
                assert(todos[j] == rs[j]);
            } else {
                lema_generacion_de_agotada(e, a, todos, restantes as nat, i as nat, j as nat);
            }
        }
        assert(generacion_de_hasta(e, a, todos, restantes as nat, todos.len()) == (PasoGeneracionDe {
            poblacion: modelo_de(nueva),
            hechas: evaluadas as nat,
        }));
    }
    (nueva, evaluadas)
}

/// `p` may be the first population: each member is a first solution
/// of the kind `gen_inicial`, with its score.
pub open spec fn es_poblacion_inicial_de(e: Seq<Dato>, gen_inicial: Inicial, p: PoblacionDe) -> bool {
    &&& p.bien_formada(e)
    &&& forall|i: int|
        0 <= i < p.individuos@.len() ==> {
            &&& normalizado((#[trigger] p.individuos@[i]).pesos@) || todo_cero(
                p.individuos@[i].pesos@,
            )
            &&& gen_inicial == Inicial::Relief ==> p.individuos@[i].pesos@ == relief_spec(e)
        }
}

/// The state of a run of differential evolution: the population, the
/// evaluations made, and the generations gone by in a row without a
/// trial vector.
pub ghost struct EstadoDe {
    pub poblacion: PoblacionDe,
    pub evaluaciones: nat,
    pub vacias: nat,
}

/// The state made of the given values.
pub open spec fn estado_de(poblacion: PoblacionDe, evaluaciones: nat, vacias: nat) -> EstadoDe {
    EstadoDe { poblacion, evaluaciones, vacias }
}

/// Whether a run is over: the evaluations are spent, or the population
/// is too small for the operator to build a trial vector, or as many
/// generations as the machine can count went by in a row without one.
pub open spec fn evolucion_acabada(
    operador: OperadorDe,
    tamano: nat,
    max_evaluaciones: nat,
    a: EstadoDe,
) -> bool {
    a.evaluaciones >= max_evaluaciones || !puede_probar(operador, tamano) || a.vacias
        >= usize::MAX
}

/// `b` follows `a` after one generation, which made some evaluations
/// of those that were left.
pub open spec fn es_paso_de(
    operador: OperadorDe,
    e: Seq<Dato>,
    max_evaluaciones: nat,
    a: EstadoDe,
    b: EstadoDe,
) -> bool {
    exists|hechas: nat|
        {
            &&& #[trigger] es_generacion_de(
                operador,
                e,
                a.poblacion,
                b.poblacion,
                (max_evaluaciones - a.evaluaciones) as nat,
                hechas,
            )
            &&& b.evaluaciones == a.evaluaciones + hechas
            &&& b.vacias == if hechas == 0 {
                a.vacias + 1
            } else {
                0
            }
        }
}

/// State `k` is not the last, and state `k + 1` follows it.
pub open spec fn eslabon_de(
    operador: OperadorDe,
    e: Seq<Dato>,
    tamano: nat,
    max_evaluaciones: nat,
    estados: Seq<EstadoDe>,
    k: int,
) -> bool {
    !evolucion_acabada(operador, tamano, max_evaluaciones, estados[k]) && es_paso_de(
        operador,
        e,
        max_evaluaciones,
        estados[k],
        estados[k + 1],
    )
}

/// The states of a run of differential evolution, generation by
/// generation, from the first population `inicial`: every population
/// is well formed and has as many members as the first.
pub open spec fn cadena_de(
    operador: OperadorDe,
    e: Seq<Dato>,
    max_evaluaciones: nat,
    inicial: PoblacionDe,
    estados: Seq<EstadoDe>,
) -> bool {
    &&& estados.len() >= 1
    &&& estados[0] == estado_de(inicial, inicial.individuos@.len(), 0)
    &&& forall|k: int|
        0 <= k < estados.len() ==> (#[trigger] estados[k]).poblacion.bien_formada(e)
            && estados[k].poblacion.individuos@.len() == inicial.individuos@.len()
    &&& forall|k: int|
        0 <= k < estados.len() - 1 ==> #[trigger] eslabon_de(
            operador,
            e,
            inicial.individuos@.len(),
            max_evaluaciones,
            estados,
            k,
        )
}

/// `f` is where a run of differential evolution from the first
/// population `inicial` may end: the chain of its generations stops as
/// soon as the run is over, and no sooner.  At no position does the
/// last population score below the first.
pub open spec fn es_evolucion_de(
    operador: OperadorDe,
    e: Seq<Dato>,
    max_evaluaciones: nat,
    inicial: PoblacionDe,
    f: EstadoDe,
) -> bool {
    exists|estados: Seq<EstadoDe>|
        {
            &&& #[trigger] cadena_de(operador, e, max_evaluaciones, inicial, estados)
            &&& estados[estados.len() - 1] == f
            &&& evolucion_acabada(operador, inicial.individuos@.len(), max_evaluaciones, f)
            &&& forall|i: int|
                0 <= i < inicial.individuos@.len() ==> (#[trigger] f.poblacion.individuos@[i]).aptitud
                    >= inicial.individuos@[i].aptitud
        }
}

/// `w` may be the result of differential evolution with `tamano`
/// members and `max_evaluaciones` evaluations: the best member of the
/// last population of a run from a first population of the kind
/// `gen_inicial`.  It scores no less than any member of the first
/// population.
pub open spec fn es_resultado_diferencial(
    operador: OperadorDe,
    e: Seq<Dato>,
    gen_inicial: Inicial,
    tamano: nat,
    max_evaluaciones: nat,
    w: Seq<u64>,
) -> bool {
    exists|inicial: PoblacionDe, f: EstadoDe|
        {
            &&& es_poblacion_inicial_de(e, gen_inicial, inicial)
            &&& inicial.individuos@.len() == tamano
            &&& #[trigger] es_evolucion_de(operador, e, max_evaluaciones, inicial, f)
            &&& w == f.poblacion.individuos@[f.poblacion.mejor as int].pesos@
            &&& forall|i: int|
                0 <= i < tamano ==> puntuacion(e, w) >= (#[trigger] inicial.individuos@[i]).aptitud
        }
}

/// A chain of states goes on with one that follows its last.
proof fn lema_extender_de(
    operador: OperadorDe,
    e: Seq<Dato>,
    max_evaluaciones: nat,
    inicial: PoblacionDe,
    estados: Seq<EstadoDe>,
    b: EstadoDe,
)
    requires
        cadena_de(operador, e, max_evaluaciones, inicial, estados),
        !evolucion_acabada(
            operador,
            inicial.individuos@.len(),
            max_evaluaciones,
            estados[estados.len() - 1],
        ),
        es_paso_de(operador, e, max_evaluaciones, estados[estados.len() - 1], b),
        b.poblacion.bien_formada(e),
        b.poblacion.individuos@.len() == inicial.individuos@.len(),
    ensures
        cadena_de(operador, e, max_evaluaciones, inicial, estados.push(b)),
{
    let nuevos = estados.push(b);
    assert(nuevos[0] == estados[0]);
    assert forall|k: int| 0 <= k < nuevos.len() implies (#[trigger] nuevos[k]).poblacion.bien_formada(
        e,
    ) && nuevos[k].poblacion.individuos@.len() == inicial.individuos@.len() by {
        if k < estados.len() {
            assert(nuevos[k] == estados[k]);
        }
    }
    assert forall|k: int| 0 <= k < nuevos.len() - 1 implies #[trigger] eslabon_de(
        operador,
        e,
        inicial.individuos@.len(),
        max_evaluaciones,
        nuevos,
        k,
    ) by {
        if k < estados.len() - 1 {
            assert(eslabon_de(
                operador,
                e,
                inicial.individuos@.len(),
                max_evaluaciones,
                estados,
                k,
            ));
            assert(nuevos[k] == estados[k] && nuevos[k + 1] == estados[k + 1]);
        } else {
            assert(nuevos[k] == estados[k] && nuevos[k + 1] == b);
        }
    }
}

/// Decides `puede_probar`.
pub fn se_puede_probar(operador: OperadorDe, tamano: usize) -> (b: bool)
    ensures
        b == puede_probar(operador, tamano as nat),
{
    tamano >= 4 || (tamano == 3 && match operador {
        OperadorDe::Ctb1 => true,
        OperadorDe::Rand1 => false,
    })
}

/// The run of differential evolution, with its last population and
/// the evaluations it made.  The population has `tamano` members, and
/// `max_evaluaciones` evaluations of the objective function may be made.
/// Generations follow one another until the evaluations are spent.  A
/// population too small for the operator to build a trial vector from
/// makes no generation.  A generation in which chance marked no gene of
/// any member makes no evaluation, and the run goes on; it gives up
/// only after as many such generations in a row as the machine counts.
pub fn evolucionar_de(
    entrenamiento: &[Dato],
    gen_inicial: Inicial,
    operador_de: OperadorDe,
    tamano: usize,
    max_evaluaciones: usize,
    rng: &mut Isaac64Rng,
) -> (r: (PoblacionDe, usize))
    requires
        muestra_valida(entrenamiento@),
        gen_inicial == Inicial::Relief ==> relief_aplicable(entrenamiento@),
        0 < tamano <= max_evaluaciones,
    ensures
        r.0.bien_formada(entrenamiento@),
        r.0.individuos@.len() == tamano,
        tamano <= r.1 <= max_evaluaciones,
        !puede_probar(operador_de, tamano as nat) ==> r.1 == tamano,
        gen_inicial == Inicial::Relief ==> r.0.individuos@[r.0.mejor as int].aptitud >= puntuacion(
            entrenamiento@,
            relief_spec(entrenamiento@),
        ),
        exists|inicial: PoblacionDe, f: EstadoDe|
            {
                &&& es_poblacion_inicial_de(entrenamiento@, gen_inicial, inicial)
                &&& inicial.individuos@.len() == tamano
                &&& #[trigger] es_evolucion_de(
                    operador_de,
                    entrenamiento@,
                    max_evaluaciones as nat,
                    inicial,
                    f,
                )
                &&& f.poblacion == r.0
                &&& f.evaluaciones == r.1
                &&& r.1 == max_evaluaciones || !puede_probar(operador_de, tamano as nat)
                    || f.vacias == usize::MAX
            },
{
    let ghost e = entrenamiento@;
    let primero = generar_inicial(gen_inicial, entrenamiento, rng);
    proof {
        lema_muestra_evaluable(e, primero@);
    }
    let ev0: u64 = evaluar(entrenamiento, primero.as_slice());
    let mut individuos: Vec<Individuo> = Vec::new();
    individuos.push(Individuo { aptitud: ev0, pesos: primero });
    let mut poblacion = PoblacionDe { individuos, mejor: 0 };
    let mut i: usize = 1;
    while i < tamano
        invariant
            1 <= i <= tamano,
            e == entrenamiento@,
            muestra_valida(e),
            gen_inicial == Inicial::Relief ==> relief_aplicable(e),
            poblacion.bien_formada(e),
            poblacion.individuos@.len() == i,
            gen_inicial == Inicial::Relief ==> poblacion.individuos@[poblacion.mejor as int].aptitud
                >= puntuacion(e, relief_spec(e)),
            es_poblacion_inicial_de(e, gen_inicial, poblacion),
        decreases tamano - i,
    {
        let nuevo_cromosoma = generar_inicial(gen_inicial, entrenamiento, rng);
        proof {
            lema_muestra_evaluable(e, nuevo_cromosoma@);
        }
        let ev: u64 = evaluar(entrenamiento, nuevo_cromosoma.as_slice());
        let supera: bool = ev > poblacion.individuos[poblacion.mejor].aptitud;
        let ghost previa = poblacion.individuos@;
        poblacion.individuos.push(Individuo { aptitud: ev, pesos: nuevo_cromosoma });
        if supera {
            poblacion.mejor = i;
        }
        proof {
            assert forall|j: int| 0 <= j < i + 1 implies {
                &&& pesos_validos(e, (#[trigger] poblacion.individuos@[j]).pesos@)
                &&& poblacion.individuos@[j].aptitud == puntuacion(e, poblacion.individuos@[j].pesos@)
                &&& poblacion.individuos@[j].aptitud
                    <= poblacion.individuos@[poblacion.mejor as int].aptitud
                &&& poblacion.individuos@[j].pesos@.len() == poblacion.individuos@[0].pesos@.len()
                &&& a_escala(poblacion.individuos@[j].pesos@)
            } by {
                if j < i {
                    assert(poblacion.individuos@[j] == previa[j]);
                }
            }
        }
        i += 1;
    }
    let mut evaluaciones_restantes: usize = max_evaluaciones - tamano;
    let puede: bool = se_puede_probar(operador_de, tamano);
    let mut vacias: usize = 0;
    let ghost inicial = poblacion;
    let ghost mut estados: Seq<EstadoDe> = seq![estado_de(poblacion, tamano as nat, 0)];
    while evaluaciones_restantes > 0 && puede && vacias < usize::MAX
        invariant
            e == entrenamiento@,
            muestra_valida(e),
            tamano <= max_evaluaciones,
            puede == puede_probar(operador_de, tamano as nat),
            poblacion.bien_formada(e),
            poblacion.individuos@.len() == tamano,
            inicial.individuos@.len() == tamano,
            cadena_de(operador_de, e, max_evaluaciones as nat, inicial, estados),
            estados[estados.len() - 1] == estado_de(
                poblacion,
                (max_evaluaciones - evaluaciones_restantes) as nat,
                vacias as nat,
            ),
            forall|j: int|
                0 <= j < tamano ==> (#[trigger] poblacion.individuos@[j]).aptitud
                    >= inicial.individuos@[j].aptitud,
            evaluaciones_restantes <= max_evaluaciones - tamano,
            !puede ==> evaluaciones_restantes == max_evaluaciones - tamano,
            gen_inicial == Inicial::Relief ==> poblacion.individuos@[poblacion.mejor as int].aptitud
                >= puntuacion(e, relief_spec(e)),
        decreases evaluaciones_restantes, usize::MAX - vacias,
    {
        let ghost mejor_previo = poblacion.individuos@[poblacion.mejor as int].aptitud;
        let ghost pos_previa = poblacion.mejor as int;
        let ghost a = estado_de(
            poblacion,
            (max_evaluaciones - evaluaciones_restantes) as nat,
            vacias as nat,
        );
        let (nueva, evaluadas) = generacion_de(
            entrenamiento,
            &poblacion,
            operador_de,
            evaluaciones_restantes,
            rng,
        );
        assert(nueva.individuos@[pos_previa].aptitud >= mejor_previo);
        proof {
            assert forall|j: int| 0 <= j < tamano implies (#[trigger] nueva.individuos@[j]).aptitud
                >= inicial.individuos@[j].aptitud by {
                assert(poblacion.individuos@[j].aptitud >= inicial.individuos@[j].aptitud);
            }
        }
        poblacion = nueva;
        if evaluadas == 0 {
            vacias = vacias + 1;
        } else {
            evaluaciones_restantes = evaluaciones_restantes - evaluadas;
            vacias = 0;
        }
        proof {
            let b = estado_de(
                poblacion,
                (max_evaluaciones - evaluaciones_restantes) as nat,
                vacias as nat,
            );
            assert(es_generacion_de(
                operador_de,
                e,
                a.poblacion,
                b.poblacion,
                (max_evaluaciones - a.evaluaciones) as nat,
                evaluadas as nat,
            ));
            assert(es_paso_de(operador_de, e, max_evaluaciones as nat, a, b));
            lema_extender_de(operador_de, e, max_evaluaciones as nat, inicial, estados, b);
            estados = estados.push(b);
        }
    }
    proof {
        let f = estado_de(
            poblacion,
            (max_evaluaciones - evaluaciones_restantes) as nat,
            vacias as nat,
        );
        assert(cadena_de(operador_de, e, max_evaluaciones as nat, inicial, estados));
        assert(es_evolucion_de(operador_de, e, max_evaluaciones as nat, inicial, f));
    }
    (poblacion, max_evaluaciones - evaluaciones_restantes)
}


/// Differential evolution with a population of `tamano` members and
/// `max_evaluaciones` evaluations of the objective function: the best
/// member of the last population of `evolucionar_de`.
pub fn evolucion_diferencial(
    entrenamiento: &[Dato],
    gen_inicial: Inicial,
    operador_de: OperadorDe,
    tamano: usize,
    max_evaluaciones: usize,
    rng: &mut Isaac64Rng,
) -> (w: Vec<u64>)
    requires
        muestra_valida(entrenamiento@),
        gen_inicial == Inicial::Relief ==> relief_aplicable(entrenamiento@),
        0 < tamano <= max_evaluaciones,
    ensures
        pesos_validos(entrenamiento@, w@),
        gen_inicial == Inicial::Relief ==> puntuacion(entrenamiento@, w@) >= puntuacion(
            entrenamiento@,
            relief_spec(entrenamiento@),
        ),
        es_resultado_diferencial(
            operador_de,
            entrenamiento@,
            gen_inicial,
            tamano as nat,
            max_evaluaciones as nat,
            w@,
        ),
{
    let (poblacion, _evaluaciones) = evolucionar_de(
        entrenamiento,
        gen_inicial,
        operador_de,
        tamano,
        max_evaluaciones,
        rng,
    );
    let w = poblacion.individuos[poblacion.mejor].pesos.clone();
    assert(w@ == poblacion.individuos@[poblacion.mejor as int].pesos@);
    proof {
        let e = entrenamiento@;
        let (inicial, f) = choose|inicial: PoblacionDe, f: EstadoDe|
            {
                &&& es_poblacion_inicial_de(e, gen_inicial, inicial)
                &&& inicial.individuos@.len() == tamano
                &&& #[trigger] es_evolucion_de(operador_de, e, max_evaluaciones as nat, inicial, f)
                &&& f.poblacion == poblacion
                &&& f.evaluaciones == _evaluaciones
                &&& _evaluaciones == max_evaluaciones || !puede_probar(operador_de, tamano as nat)
                    || f.vacias == usize::MAX
            };
        assert forall|i: int| 0 <= i < tamano implies puntuacion(e, w@) >= (
        #[trigger] inicial.individuos@[i]).aptitud by {
            assert(poblacion.individuos@[i].aptitud >= inicial.individuos@[i].aptitud);
            assert(poblacion.individuos@[i].aptitud
                <= poblacion.individuos@[poblacion.mejor as int].aptitud);
        }
    }
    w
}

/// Differential evolution with the standard population size and budget.
pub fn differential_evolution_general(
    entrenamiento: &[Dato],
    gen_inicial: Inicial,
    operador_de: OperadorDe,
    rng: &mut Isaac64Rng,
) -> (w: Vec<u64>)
    requires
        muestra_valida(entrenamiento@),
        gen_inicial == Inicial::Relief ==> relief_aplicable(entrenamiento@),
    ensures
        pesos_validos(entrenamiento@, w@),
        gen_inicial == Inicial::Relief ==> puntuacion(entrenamiento@, w@) >= puntuacion(
            entrenamiento@,
            relief_spec(entrenamiento@),
        ),
        es_resultado_diferencial(
            operador_de,
            entrenamiento@,
            gen_inicial,
            TAMANO_DE as nat,
            MAX_EVALUACIONES as nat,
            w@,
        ),
{
    evolucion_diferencial(entrenamiento, gen_inicial, operador_de, TAMANO_DE, MAX_EVALUACIONES, rng)
}

/// Differential evolution with the operator DE/rand/1.
pub fn de_rand_1(entrenamiento: &[Dato], rng: &mut Isaac64Rng) -> (w: Vec<u64>)
    requires
        muestra_valida(entrenamiento@),
    ensures
        pesos_validos(entrenamiento@, w@),
        es_resultado_diferencial(
            OperadorDe::Rand1,
            entrenamiento@,
            Inicial::VectorAu,
            TAMANO_DE as nat,
            MAX_EVALUACIONES as nat,
            w@,
        ),
{
    differential_evolution_general(entrenamiento, Inicial::VectorAu, OperadorDe::Rand1, rng)
}

/// Differential evolution with the operator DE/current-to-best/1.
pub fn de_ctb_1(entrenamiento: &[Dato], rng: &mut Isaac64Rng) -> (w: Vec<u64>)
    requires
        muestra_valida(entrenamiento@),
    ensures
        pesos_validos(entrenamiento@, w@),
        es_resultado_diferencial(
            OperadorDe::Ctb1,
            entrenamiento@,
            Inicial::VectorAu,
            TAMANO_DE as nat,
            MAX_EVALUACIONES as nat,
            w@,
        ),
{
    differential_evolution_general(entrenamiento, Inicial::VectorAu, OperadorDe::Ctb1, rng)
}

} // verus!
