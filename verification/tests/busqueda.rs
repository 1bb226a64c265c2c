use aprendizaje_pesos::aleatorio::Ruido;
use aprendizaje_pesos::evaluacion_pesos::evaluar;
use aprendizaje_pesos::fijo::UNO;
use aprendizaje_pesos::funciones_practica1::{
    afinidad_optima, aplicar_vecino, buscar_localmente, busqueda_local, busqueda_local_desde,
    busqueda_local_generica_desde, busqueda_local_mut2, busqueda_local_mut2_desde,
    busqueda_local_orden, busqueda_local_orden_desde, busqueda_local_orden_mut2,
    busqueda_local_orden_mut2_desde, busqueda_local_ordenada_desde, combinar, es_relief_aplicable,
    generar_inicial, normalizar, orden_natural, ordenar_por_puntuacion, peso_unitario,
    potencia_optima, puntuaciones_individuales, refinar, relief, relief_afinidad, relief_potencia,
    relief_truncado, todos_unos, transformar, truncado_optimo, truncar, uno_nn, vecino_bl,
    vecino_bl_con, vecino_bl_mut2, vecino_bl_mut2_con, vector_aleatorio_uniforme, vector_au,
    EstadoBusqueda, Inicial, Refinamiento, Vecino, CORTE_INICIAL, DESVIACION_VECINO,
    MAX_CICLOS, MAX_EVALUACIONES,
};
use aprendizaje_pesos::knn::Dato;
use rand::distributions::{IndependentSample, Normal};
use rand::{Isaac64Rng, Rng, SeedableRng};

/// Draws from `rand`, rounded to millionths.
struct RuidoDeRand;

impl Ruido for RuidoDeRand {
    fn normal(&self, rng: &mut Isaac64Rng, desviacion: u64) -> i64 {
        let x = Normal::new(0.0, desviacion as f64 / 1e6).ind_sample(rng);
        (x * 1e6).round() as i64
    }

    fn exponencial(&self, rng: &mut Isaac64Rng) -> u64 {
        let u: f64 = rng.gen();
        (-u.ln() * 1e6) as u64
    }
}

/// A source that always steps by the same amount.
struct PasoFijo(i64);

impl Ruido for PasoFijo {
    fn normal(&self, _rng: &mut Isaac64Rng, _desviacion: u64) -> i64 {
        self.0
    }

    fn exponencial(&self, _rng: &mut Isaac64Rng) -> u64 {
        0
    }
}

fn generador(semilla: u64) -> Isaac64Rng {
    let s: &[u64] = &[semilla, 17];
    Isaac64Rng::from_seed(s)
}

fn dato(reales: &[u64], clase: i32) -> Dato {
    Dato::new(reales, &[], clase)
}

/// The first attribute tells the classes apart; the second misleads.
fn muestra() -> Vec<Dato> {
    vec![
        dato(&[0, 0, 500_000], 0),
        dato(&[100_000, 200_000, 500_000], 0),
        dato(&[50_000, 900_000, 400_000], 0),
        dato(&[150_000, 700_000, 600_000], 0),
        dato(&[900_000, 600_000, 500_000], 1),
        dato(&[1_000_000, 800_000, 500_000], 1),
        dato(&[950_000, 100_000, 600_000], 1),
        dato(&[850_000, 300_000, 400_000], 1),
    ]
}

fn maximo(w: &[u64]) -> u64 {
    *w.iter().max().unwrap()
}

#[test]
fn normalizar_lleva_el_maximo_a_uno() {
    let mut w = vec![500_000, 250_000, 0];
    normalizar(&mut w);
    assert_eq!(w, vec![1_000_000, 500_000, 0]);
    let mut w = vec![3, 2, 1];
    normalizar(&mut w);
    assert_eq!(w, vec![1_000_000, 666_666, 333_333]);
    let mut w = vec![4_000_000, 1_000_000];
    normalizar(&mut w);
    assert_eq!(w, vec![1_000_000, 250_000]);
}

#[test]
fn normalizar_deja_ceros_vacio_y_normalizados() {
    let mut w = vec![0, 0, 0];
    normalizar(&mut w);
    assert_eq!(w, vec![0, 0, 0]);
    let mut w: Vec<u64> = vec![];
    normalizar(&mut w);
    assert_eq!(w, Vec::<u64>::new());
    let mut w = vec![1_000_000, 123_456];
    normalizar(&mut w);
    assert_eq!(w, vec![1_000_000, 123_456]);
}

#[test]
fn vector_aleatorio_esta_normalizado() {
    let mut rng = generador(1);
    for n in 1..20 {
        let w = vector_aleatorio_uniforme(n, &mut rng);
        assert_eq!(w.len(), n);
        assert_eq!(maximo(&w), UNO);
    }
    assert_eq!(vector_aleatorio_uniforme(0, &mut rng).len(), 0);
    let w = vector_au(&muestra(), &mut rng);
    assert_eq!(w.len(), 3);
    assert_eq!(maximo(&w), UNO);
}

#[test]
fn vecino_bl_mueve_y_recorta() {
    assert_eq!(vecino_bl_con(&[1_000_000, 500_000], 1, 100_000), vec![1_000_000, 600_000]);
    assert_eq!(vecino_bl_con(&[1_000_000, 500_000], 1, 700_000), vec![1_000_000, 1_000_000]);
    assert_eq!(vecino_bl_con(&[1_000_000, 500_000], 1, -600_000), vec![1_000_000, 0]);
}

#[test]
fn vecino_bl_normaliza_si_baja_el_uno() {
    assert_eq!(vecino_bl_con(&[1_000_000, 500_000], 0, -500_000), vec![1_000_000, 1_000_000]);
    assert_eq!(vecino_bl_con(&[1_000_000, 500_000], 0, -750_000), vec![500_000, 1_000_000]);
    assert_eq!(vecino_bl_con(&[1_000_000, 500_000], 0, 300_000), vec![1_000_000, 500_000]);
    assert_eq!(vecino_bl_con(&[1_000_000, 0], 0, -2_000_000), vec![0, 0]);
}

#[test]
fn vecino_bl_desde_ceros_no_normaliza() {
    assert_eq!(vecino_bl_con(&[0, 0], 0, 300_000), vec![300_000, 0]);
}

#[test]
fn vecino_bl_mut2_normaliza_en_vez_de_recortar() {
    assert_eq!(
        vecino_bl_mut2_con(&[1_000_000, 500_000], 1, 1_500_000),
        vec![500_000, 1_000_000]
    );
    assert_eq!(vecino_bl_mut2_con(&[1_000_000, 500_000], 1, -600_000), vec![1_000_000, 0]);
    assert_eq!(vecino_bl_mut2_con(&[1_000_000, 500_000], 1, 100_000), vec![1_000_000, 600_000]);
    assert_eq!(
        vecino_bl_mut2_con(&[1_000_000, 500_000], 0, 1_000_000),
        vec![1_000_000, 250_000]
    );
    assert_eq!(
        vecino_bl_mut2_con(&[1_000_000, 500_000], 0, -750_000),
        vec![500_000, 1_000_000]
    );
}

#[test]
fn vecinos_con_paso_dado_por_la_fuente() {
    let mut rng = generador(2);
    let w = [1_000_000, 500_000];
    assert_eq!(vecino_bl(&w, 1, &mut rng, &PasoFijo(100_000)), vec![1_000_000, 600_000]);
    assert_eq!(vecino_bl_mut2(&w, 1, &mut rng, &PasoFijo(1_500_000)), vec![500_000, 1_000_000]);
    assert_eq!(
        aplicar_vecino(Vecino::Bl, &w, 1, &mut rng, &PasoFijo(700_000)),
        vec![1_000_000, 1_000_000]
    );
    assert_eq!(
        aplicar_vecino(Vecino::BlMut2, &w, 1, &mut rng, &PasoFijo(3_000_000)),
        vec![285_714, 1_000_000]
    );
    assert_eq!(DESVIACION_VECINO, 300_000);
}

#[test]
fn vecinos_mantienen_el_maximo_en_uno() {
    let mut rng = generador(3);
    let mut w = vector_aleatorio_uniforme(7, &mut rng);
    for paso in 0..2000 {
        let operador = if paso % 2 == 0 { Vecino::Bl } else { Vecino::BlMut2 };
        let nw = aplicar_vecino(operador, &w, paso % 7, &mut rng, &RuidoDeRand);
        assert_eq!(nw.len(), 7);
        assert!(maximo(&nw) == UNO || nw.iter().all(|x| *x == 0));
        if maximo(&nw) == UNO {
            w = nw;
        }
    }
}

#[test]
fn estado_adopta_solo_lo_estrictamente_mejor() {
    let mut e = EstadoBusqueda::new(vec![1, 2], 50);
    assert_eq!((e.atr, e.n_ciclos, e.evaluaciones), (0, 0, 1));
    assert!(!e.avanzar(vec![3, 4], 50, 2, 2));
    assert_eq!((e.w.clone(), e.fw, e.atr, e.n_ciclos, e.evaluaciones), (vec![1, 2], 50, 1, 0, 2));
    assert!(!e.avanzar(vec![5, 6], 49, 2, 2));
    assert_eq!((e.w.clone(), e.fw, e.atr, e.n_ciclos, e.evaluaciones), (vec![1, 2], 50, 0, 1, 3));
    assert!(!e.avanzar(vec![7, 8], 51, 2, 2));
    assert_eq!((e.w.clone(), e.fw, e.atr, e.n_ciclos, e.evaluaciones), (vec![7, 8], 51, 0, 0, 4));
}

#[test]
fn estado_termina_al_agotar_los_ciclos() {
    let mut e = EstadoBusqueda::new(vec![1, 2], 50);
    assert!(!e.avanzar(vec![0, 0], 1, 2, 2));
    assert!(!e.avanzar(vec![0, 0], 1, 2, 2));
    assert!(!e.avanzar(vec![0, 0], 1, 2, 2));
    assert!(e.avanzar(vec![0, 0], 1, 2, 2));
    assert_eq!((e.atr, e.n_ciclos, e.evaluaciones), (0, 2, 5));
}

#[test]
fn busqueda_local_nunca_empeora() {
    let datos = muestra();
    let mut rng = generador(4);
    for _ in 0..20 {
        let base = vector_au(&datos, &mut rng);
        let w = busqueda_local_generica_desde(&datos, &base, Vecino::Bl, 60, 3, &mut rng, &RuidoDeRand);
        assert_eq!(w.len(), 3);
        assert!(w.iter().all(|x| *x <= UNO));
        assert!(evaluar(&datos, &w) >= evaluar(&datos, &base));
    }
}

#[test]
fn busqueda_local_respeta_el_tope_de_evaluaciones() {
    let datos = muestra();
    let mut rng = generador(5);
    let base = [UNO, UNO, UNO];
    let orden = orden_natural(3);
    assert_eq!(orden, vec![0, 1, 2]);
    for tope in [0usize, 1, 2, 10, 37] {
        let e = buscar_localmente(&datos, &base, Vecino::Bl, &orden, tope, 1000, &mut rng, &RuidoDeRand);
        assert!(e.evaluaciones >= 1);
        assert!(e.evaluaciones <= tope.max(1));
        assert_eq!(e.fw, evaluar(&datos, &e.w));
    }
    let sin_buscar = busqueda_local_generica_desde(&datos, &base, Vecino::Bl, 1, 5, &mut rng, &RuidoDeRand);
    assert_eq!(sin_buscar, base.to_vec());
}

#[test]
fn busqueda_local_para_a_los_ciclos_sin_mejora() {
    let datos = muestra();
    let mut rng = generador(6);
    let base = [UNO, UNO, UNO];
    let orden = orden_natural(3);
    // A source that never moves anything finds no better neighbour.
    let e = buscar_localmente(&datos, &base, Vecino::Bl, &orden, 1000, 4, &mut rng, &PasoFijo(0));
    assert_eq!(e.w, base.to_vec());
    assert_eq!(e.n_ciclos, 4);
    assert_eq!(e.evaluaciones, 1 + 3 * 4);
}

#[test]
fn busqueda_local_mejora_la_muestra() {
    let datos = muestra();
    let mut rng = generador(7);
    let base = [UNO, 300_000, 300_000];
    let w = busqueda_local_desde(&datos, &base, &mut rng, &RuidoDeRand);
    assert!(evaluar(&datos, &w) > evaluar(&datos, &base));
    assert_eq!((MAX_EVALUACIONES, MAX_CICLOS), (15000, 20));
}

#[test]
fn peso_unitario_y_todos_unos() {
    assert_eq!(peso_unitario(3, 1), vec![0, UNO, 0]);
    assert_eq!(peso_unitario(2, 5), vec![0, 0]);
    assert_eq!(todos_unos(3), vec![UNO, UNO, UNO]);
    assert_eq!(uno_nn(&muestra()), vec![UNO, UNO, UNO]);
}

#[test]
fn orden_por_puntuacion_descendente_y_estable() {
    assert_eq!(ordenar_por_puntuacion(&[5, 9, 5, 7, 9]), vec![1, 4, 3, 0, 2]);
    assert_eq!(ordenar_por_puntuacion(&[]), Vec::<usize>::new());
    assert_eq!(ordenar_por_puntuacion(&[1, 1, 1]), vec![0, 1, 2]);
}

#[test]
fn puntuaciones_de_cada_atributo_solo() {
    let datos = muestra();
    let puntos = puntuaciones_individuales(&datos);
    assert_eq!(puntos.len(), 3);
    for a in 0..3 {
        assert_eq!(puntos[a], evaluar(&datos, &peso_unitario(3, a)));
    }
    // The first attribute alone classifies everything: (100 + 66.6) / 2.
    assert_eq!(puntos[0], 83_333_333);
    assert_eq!(ordenar_por_puntuacion(&puntos)[0], 0);
}

#[test]
fn busqueda_ordenada_nunca_empeora() {
    let datos = muestra();
    let mut rng = generador(8);
    let base = vector_au(&datos, &mut rng);
    let w = busqueda_local_ordenada_desde(&datos, &base, Vecino::BlMut2, 80, 5, &mut rng, &RuidoDeRand);
    assert!(evaluar(&datos, &w) >= evaluar(&datos, &base));
}

#[test]
fn relief_con_un_atributo_informativo() {
    let datos = vec![
        dato(&[0, 0], 0),
        dato(&[100_000, 1_000_000], 0),
        dato(&[900_000, 0], 1),
        dato(&[1_000_000, 1_000_000], 1),
    ];
    assert!(es_relief_aplicable(&datos));
    assert_eq!(relief(&datos), vec![UNO, 0]);
}

#[test]
fn relief_divide_por_el_mayor() {
    let datos = vec![
        dato(&[0, 0], 0),
        dato(&[100_000, 200_000], 0),
        dato(&[900_000, 600_000], 1),
        dato(&[1_000_000, 800_000], 1),
    ];
    assert_eq!(relief(&datos), vec![1_000_000, 400_000]);
}

#[test]
fn relief_no_se_aplica_sin_amigos_enemigos_o_con_categoricos() {
    assert!(!es_relief_aplicable(&[dato(&[0], 0), dato(&[1], 0)]));
    assert!(!es_relief_aplicable(&[dato(&[0], 0), dato(&[1], 0), dato(&[2], 1)]));
    let mixtos = vec![
        Dato::new(&[0], &["a".to_string()], 0),
        Dato::new(&[1], &["a".to_string()], 0),
        Dato::new(&[2], &["b".to_string()], 1),
        Dato::new(&[3], &["b".to_string()], 1),
    ];
    assert!(!es_relief_aplicable(&mixtos));
}

#[test]
fn truncar_anula_hasta_el_corte() {
    assert_eq!(
        truncar(&[1_000_000, 300_000, 250_000, 100_000], 250_000),
        vec![1_000_000, 300_000, 0, 0]
    );
    assert_eq!(truncar(&[200_000, 199_999], CORTE_INICIAL), vec![200_000, 0]);
}

#[test]
fn truncado_optimo_poda_lo_que_estorba() {
    let datos = muestra();
    let base = [UNO, 600_000, 300_000];
    let w = truncado_optimo(&datos, &base);
    assert!(evaluar(&datos, &w) >= evaluar(&datos, &base));
    assert!(evaluar(&datos, &w) >= evaluar(&datos, &truncar(&base, 600_000)));
    assert!(evaluar(&datos, &w) >= evaluar(&datos, &truncar(&base, 300_000)));
    assert_eq!(w, vec![UNO, 0, 0]);
}

#[test]
fn truncado_optimo_sin_candidatos_solo_poda() {
    let datos = muestra();
    assert_eq!(truncado_optimo(&datos, &[UNO, 150_000, UNO]), vec![UNO, 0, UNO]);
}

#[test]
fn transformar_lleva_el_corte_al_umbral() {
    assert_eq!(
        transformar(&[1_000_000, 600_000, 100_000], 600_000),
        vec![1_000_000, 200_000, 0]
    );
    assert_eq!(
        transformar(&[1_000_000, 800_000, 700_000], 600_000),
        vec![1_000_000, 600_000, 400_000]
    );
    assert_eq!(transformar(&[1_000_000, 654_321, 0], 200_000), vec![1_000_000, 654_321, 0]);
}

#[test]
fn afinidad_optima_nunca_empeora() {
    let datos = muestra();
    let base = [UNO, 600_000, 300_000];
    let w = afinidad_optima(&datos, &base);
    assert!(evaluar(&datos, &w) >= evaluar(&datos, &base));
    assert!(evaluar(&datos, &w) >= evaluar(&datos, &transformar(&base, 600_001)));
    assert!(evaluar(&datos, &w) >= evaluar(&datos, &transformar(&base, 300_001)));
    // The first candidate takes 0.6 just below the threshold and 0.3 below zero.
    assert_eq!(w, vec![UNO, 199_997, 0]);
    assert_eq!(w, transformar(&base, 600_001));
    assert_eq!(afinidad_optima(&datos, &[UNO, 0, 0]), vec![UNO, 0, 0]);
}

#[test]
fn potencia_optima_elige_el_primer_mejor_candidato() {
    let datos = muestra();
    let base = [UNO, 600_000, 300_000];
    let candidatos = vec![
        vec![UNO, 600_000, 100_000],
        vec![UNO, 100_000, 10_000],
        vec![UNO, 50_000, 5_000],
    ];
    assert_eq!(potencia_optima(&datos, &base, &candidatos), vec![UNO, 100_000, 10_000]);
    assert_eq!(potencia_optima(&datos, &base, &[]), base.to_vec());
    let peores = vec![vec![0, UNO, UNO]];
    assert_eq!(potencia_optima(&datos, &base, &peores), base.to_vec());
}

#[test]
fn relief_con_sus_refinamientos() {
    let datos = muestra();
    assert!(es_relief_aplicable(&datos));
    let w = relief(&datos);
    assert_eq!(maximo(&w), UNO);
    assert_eq!(relief_truncado(&datos), truncado_optimo(&datos, &w));
    assert_eq!(relief_afinidad(&datos), afinidad_optima(&datos, &w));
    let candidatos = vec![vec![UNO, 0, 0]];
    assert_eq!(relief_potencia(&datos, &candidatos), potencia_optima(&datos, &w, &candidatos));
}

#[test]
fn combinar_aplica_el_segundo_al_primero() {
    let datos = muestra();
    let mut rng = generador(9);
    assert_eq!(generar_inicial(Inicial::Relief, &datos, &mut rng), relief(&datos));
    assert_eq!(
        combinar(&datos, Inicial::Relief, Refinamiento::TruncadoOptimo, &mut rng, &RuidoDeRand),
        relief_truncado(&datos)
    );
    assert_eq!(
        refinar(Refinamiento::AfinidadOptima, &datos, &[UNO, 600_000, 300_000], &mut rng, &RuidoDeRand),
        afinidad_optima(&datos, &[UNO, 600_000, 300_000])
    );
    let busqueda = Refinamiento::BusquedaLocal {
        vecino: Vecino::Bl,
        ordenada: true,
        max_evaluaciones: 50,
        max_ciclos: 5,
    };
    let w = combinar(&datos, Inicial::VectorAu, busqueda, &mut rng, &RuidoDeRand);
    assert_eq!(w.len(), 3);
}

#[test]
fn busquedas_con_nombre_devuelven_pesos_validos() {
    let datos = muestra();
    let mut rng = generador(10);
    let base = [UNO, UNO, UNO];
    let f = evaluar(&datos, &base);
    let resultados = vec![
        busqueda_local(&datos, &mut rng, &RuidoDeRand),
        busqueda_local_mut2(&datos, &mut rng, &RuidoDeRand),
        busqueda_local_orden(&datos, &mut rng, &RuidoDeRand),
        busqueda_local_orden_mut2(&datos, &mut rng, &RuidoDeRand),
    ];
    for w in resultados {
        assert_eq!(w.len(), 3);
        assert!(w.iter().all(|x| *x <= UNO));
    }
    let desde = vec![
        busqueda_local_mut2_desde(&datos, &base, &mut rng, &RuidoDeRand),
        busqueda_local_orden_desde(&datos, &base, &mut rng, &RuidoDeRand),
        busqueda_local_orden_mut2_desde(&datos, &base, &mut rng, &RuidoDeRand),
    ];
    for w in desde {
        assert!(evaluar(&datos, &w) >= f);
    }
}

#[test]
fn busqueda_local_normalizada_o_mejor_que_los_ceros() {
    let datos = muestra();
    let ceros = evaluar(&datos, &[0, 0, 0]);
    let orden = orden_natural(3);
    for semilla in 0..30u64 {
        let mut rng = generador(100 + semilla);
        let base = vector_au(&datos, &mut rng);
        let e = buscar_localmente(&datos, &base, Vecino::Bl, &orden, 80, 5, &mut rng, &RuidoDeRand);
        let normal = maximo(&e.w) == UNO;
        let nulo = e.w.iter().all(|x| *x == 0);
        assert!(normal || nulo || e.fw > ceros);
        assert!(e.w == base || e.fw > evaluar(&datos, &base));
    }
}

#[test]
fn busqueda_local_desde_ceros_puede_dejar_el_maximo_bajo_uno() {
    let datos = muestra();
    let ceros = evaluar(&datos, &[0, 0, 0]);
    let orden = orden_natural(3);
    let mut rng = generador(9);
    // Every step adds 0.3 to one component: from the vector of zeros the
    // first neighbour is [0.3, 0, 0], which is not normalized.
    let e = buscar_localmente(&datos, &[0, 0, 0], Vecino::Bl, &orden, 2, 5, &mut rng, &PasoFijo(300_000));
    assert_eq!(e.evaluaciones, 2);
    if e.fw > ceros {
        assert_eq!(e.w, vec![300_000, 0, 0]);
    } else {
        assert_eq!(e.w, vec![0, 0, 0]);
    }
}

#[test]
fn busqueda_local_cuenta_por_ciclos_y_atributos() {
    let datos = muestra();
    let orden = orden_natural(3);
    for semilla in 0..10u64 {
        let mut rng = generador(200 + semilla);
        let base = vector_au(&datos, &mut rng);
        let e = buscar_localmente(&datos, &base, Vecino::Bl, &orden, 50, 2, &mut rng, &RuidoDeRand);
        assert!(e.evaluaciones >= 2);
        assert!(e.atr < 3);
        assert!(e.evaluaciones >= 1 + e.n_ciclos * 3 + e.atr);
        assert!(e.n_ciclos == 2 || e.evaluaciones >= 50);
        if e.n_ciclos == 2 {
            assert!(e.evaluaciones >= 1 + 2 * 3);
        }
    }
}
