use aprendizaje_pesos::aleatorio::Ruido;
use aprendizaje_pesos::evaluacion_pesos::evaluar;
use aprendizaje_pesos::fijo::UNO;
use aprendizaje_pesos::funciones_practica1::{
    relief, vector_au, Inicial, Refinamiento, Vecino,
};
use aprendizaje_pesos::funciones_practica3::{
    acepta, aplicar_operador_de, bl_ils, bl_ils_mut2, busqueda_local_iterada_desde, de_ctb_1,
    de_rand_1, differential_evolution_general, dividir_techo, enfriamiento_cauchy,
    enfriamiento_proporcional, enfriamiento_simulado_desde, enfriar, enfriar_segun,
    enfriar_simuladamente, es, es_mut2,
    es_prop, es_prop_mut2, evolucion_diferencial, evolucionar_de, factor_proporcional, gen_ctb_1,
    gen_rand_1,
    generacion_de, ils, ils_afinidad, ils_afinidad_relief, ils_mut2,
    iterated_local_search_general, op_ctb_1, op_rand_1, relevar, se_puede_probar,
    simulated_annealing_general,
    temperatura_inicial, vecino_ils, vecino_ils_con, vecinos_por_iteracion, Enfriamiento,
    EstadoEnfriamiento, OperadorDe, PoblacionDe, DESVIACION_ILS, DE_CR, DE_F, FACTOR_TEMPERATURA,
    MAX_EVALUACIONES, MAX_EVALUACIONES_BL, TAMANO_DE, TEMPERATURA_FINAL,
};
use aprendizaje_pesos::knn::Dato;
use aprendizaje_pesos::poblacion::Individuo;
use rand::distributions::{IndependentSample, Normal};
use rand::{Isaac64Rng, Rng, SeedableRng};

struct RuidoReal;

impl Ruido for RuidoReal {
    fn normal(&self, rng: &mut Isaac64Rng, desviacion: u64) -> i64 {
        let x = Normal::new(0.0, desviacion as f64 / 1e6).ind_sample(rng);
        (x * 1e6).round() as i64
    }

    fn exponencial(&self, rng: &mut Isaac64Rng) -> u64 {
        let u: f64 = rng.gen();
        (-u.ln() * 1e6) as u64
    }
}

fn semillado(semilla: u64) -> Isaac64Rng {
    let s: &[u64] = &[semilla, 23, 5];
    Isaac64Rng::from_seed(s)
}

fn registro(reales: &[u64], clase: i32) -> Dato {
    Dato::new(reales, &[], clase)
}

fn datos_de_prueba() -> Vec<Dato> {
    vec![
        registro(&[0, 0, 500_000], 0),
        registro(&[100_000, 200_000, 500_000], 0),
        registro(&[50_000, 900_000, 400_000], 0),
        registro(&[150_000, 700_000, 600_000], 0),
        registro(&[900_000, 600_000, 500_000], 1),
        registro(&[1_000_000, 800_000, 500_000], 1),
        registro(&[950_000, 100_000, 600_000], 1),
        registro(&[850_000, 300_000, 400_000], 1),
    ]
}

fn es_valido(w: &[u64], n: usize) -> bool {
    w.len() == n && w.iter().all(|x| *x <= UNO)
}

#[test]
fn enfriamiento_cauchy_un_paso() {
    // 10 / (1 + 9.999 * 10) = 0.0990197...
    assert_eq!(enfriamiento_cauchy(10_000_000, 10_000_000, 1000, 100), 99_019);
    assert_eq!(enfriamiento_cauchy(0, 10_000_000, 1000, 100), 0);
}

#[test]
fn enfriamiento_cauchy_llega_a_la_temperatura_final() {
    let t0 = 12_458_600;
    let mut t = t0;
    for _ in 0..150 {
        let siguiente = enfriamiento_cauchy(t, t0, TEMPERATURA_FINAL, 150);
        assert!(siguiente <= t);
        t = siguiente;
    }
    // Every step rounds down, so the end lies a little below 0.001.
    assert_eq!(t, 975);
    assert!(t <= TEMPERATURA_FINAL);
}

#[test]
fn enfriamiento_cauchy_casos_sin_denominador() {
    assert_eq!(enfriamiento_cauchy(5, 0, 0, 0), 5);
    assert_eq!(enfriamiento_cauchy(7, 3, 3, 0), 7);
    assert_eq!(enfriamiento_cauchy(1_000_000, 10_000_000, 0, 100), 0);
}

#[test]
fn enfriar_multiplica_y_redondea() {
    assert_eq!(enfriar(1_000_000, 500_000, 3), 125_000);
    assert_eq!(enfriar(7, 500_000, 1), 3);
    assert_eq!(enfriar(123, UNO, 50), 123);
    assert_eq!(enfriar(123, 900_000, 0), 123);
}

#[test]
fn factor_proporcional_es_el_mayor_que_llega() {
    let (t0, tf, n) = (12_458_600u64, 1000u64, 150usize);
    let b = factor_proporcional(t0, tf, n);
    assert!(b > 0 && b < UNO);
    assert!(enfriar(t0, b, n) <= tf);
    assert!(enfriar(t0, b + 1, n) > tf);
    // (0.001 / 12.4586) ^ (1 / 150) = 0.9390...
    assert!(b > 935_000 && b < 945_000, "{}", b);
}

#[test]
fn factor_proporcional_en_los_extremos() {
    assert_eq!(factor_proporcional(1000, 1000, 10), UNO);
    assert_eq!(factor_proporcional(500, 1000, 10), UNO);
    assert_eq!(factor_proporcional(1_000_000, 250_000, 2), 500_000);
    assert_eq!(factor_proporcional(1_000_000, 1000, 0), 0);
}

#[test]
fn enfriamiento_proporcional_un_paso() {
    assert_eq!(enfriamiento_proporcional(800_000, 1_000_000, 250_000, 2), 400_000);
    assert_eq!(
        enfriar_segun(Enfriamiento::Proporcional, 800_000, 1_000_000, 250_000, 2),
        400_000
    );
    assert_eq!(
        enfriar_segun(Enfriamiento::Cauchy, 10_000_000, 10_000_000, 1000, 100),
        99_019
    );
}

#[test]
fn temperatura_inicial_es_proporcional_a_la_puntuacion() {
    assert_eq!(FACTOR_TEMPERATURA, 249_175);
    assert_eq!(temperatura_inicial(50_000_000), 12_458_750);
    assert_eq!(temperatura_inicial(0), 0);
    assert_eq!(temperatura_inicial(1), 0);
}

#[test]
fn metropolis_acepta_lo_mejor_y_a_veces_lo_peor() {
    assert!(acepta(50_000_000, 50_000_001, 0, 0));
    assert!(acepta(50_000_000, 50_000_000, 0, 0));
    assert!(acepta(50_000_000, 49_000_000, 10_000_000, 100_000));
    assert!(!acepta(50_000_000, 49_000_000, 10_000_000, 99_999));
    assert!(!acepta(50_000_000, 49_999_999, 0, u64::MAX));
    assert!(acepta(u64::MAX, 0, u64::MAX, u64::MAX));
}

#[test]
fn vecinos_y_divisiones_del_enfriamiento() {
    assert_eq!(vecinos_por_iteracion(4), 40);
    assert_eq!(vecinos_por_iteracion(usize::MAX), usize::MAX);
    assert_eq!(dividir_techo(14_999, 40), 375);
    assert_eq!(dividir_techo(40, 10), 4);
    assert_eq!(dividir_techo(0, 7), 0);
    assert_eq!(dividir_techo(1, 7), 1);
}

#[test]
fn enfriamiento_simulado_devuelve_lo_mejor_visto() {
    let datos = datos_de_prueba();
    let mut rng = semillado(1);
    for enfriamiento in [Enfriamiento::Cauchy, Enfriamiento::Proporcional] {
        for vecino in [Vecino::Bl, Vecino::BlMut2] {
            let inicial = vector_au(&datos, &mut rng);
            let w = enfriamiento_simulado_desde(
                &datos, &inicial, vecino, enfriamiento, 400, &mut rng, &RuidoReal,
            );
            assert!(es_valido(&w, 3));
            assert!(evaluar(&datos, &w) >= evaluar(&datos, &inicial));
        }
    }
}

#[test]
fn enfriamiento_simulado_sin_presupuesto_no_busca() {
    let datos = datos_de_prueba();
    let mut rng = semillado(2);
    let inicial = [UNO, 500_000, 0];
    for tope in [0usize, 1] {
        let w = enfriamiento_simulado_desde(
            &datos, &inicial, Vecino::Bl, Enfriamiento::Cauchy, tope, &mut rng, &RuidoReal,
        );
        assert_eq!(w, inicial.to_vec());
    }
}

#[test]
fn enfriamiento_simulado_con_la_misma_semilla_es_identico() {
    let datos = datos_de_prueba();
    let primero = es(&datos, &mut semillado(99), &RuidoReal);
    let segundo = es(&datos, &mut semillado(99), &RuidoReal);
    assert_eq!(primero, segundo);
    assert!(es_valido(&primero, 3));
    let otro = enfriamiento_simulado_desde(
        &datos, &[UNO, UNO, UNO], Vecino::Bl, Enfriamiento::Cauchy, 300, &mut semillado(5), &RuidoReal,
    );
    let repetido = enfriamiento_simulado_desde(
        &datos, &[UNO, UNO, UNO], Vecino::Bl, Enfriamiento::Cauchy, 300, &mut semillado(5), &RuidoReal,
    );
    assert_eq!(otro, repetido);
}

#[test]
fn enfriamientos_con_nombre() {
    let datos = datos_de_prueba();
    let mut rng = semillado(3);
    assert!(es_valido(&es_mut2(&datos, &mut rng, &RuidoReal), 3));
    assert!(es_valido(&es_prop(&datos, &mut rng, &RuidoReal), 3));
    assert!(es_valido(&es_prop_mut2(&datos, &mut rng, &RuidoReal), 3));
    let w = simulated_annealing_general(
        &datos, Inicial::Relief, Vecino::Bl, Enfriamiento::Cauchy, &mut rng, &RuidoReal,
    );
    assert!(evaluar(&datos, &w) >= evaluar(&datos, &relief(&datos)));
}

#[test]
fn mutacion_fuerte_con_pasos_dados() {
    assert_eq!(DESVIACION_ILS, 400_000);
    assert_eq!(
        vecino_ils_con(&[1_000_000, 500_000, 200_000], &[1, 2], &[-500_000, 300_000]),
        vec![1_000_000, 0, 500_000]
    );
    assert_eq!(
        vecino_ils_con(&[1_000_000, 500_000], &[0], &[-750_000]),
        vec![500_000, 1_000_000]
    );
    assert_eq!(vecino_ils_con(&[1_000_000, 500_000], &[], &[]), vec![1_000_000, 500_000]);
    assert_eq!(vecino_ils_con(&[400_000, 500_000], &[], &[]), vec![800_000, 1_000_000]);
    assert_eq!(
        vecino_ils_con(&[1_000_000, 500_000], &[1, 1], &[300_000, 300_000]),
        vec![1_000_000, 1_000_000]
    );
}

#[test]
fn mutacion_fuerte_cambia_una_decima_parte() {
    let mut rng = semillado(4);
    let w: Vec<u64> = vec![UNO; 30];
    let nw = vecino_ils(&w, &mut rng, &RuidoReal);
    assert_eq!(nw.len(), 30);
    assert_eq!(*nw.iter().max().unwrap(), UNO);
    let cambiados = nw.iter().filter(|x| **x != UNO).count();
    assert!(cambiados <= 3);
    // Fewer than five components: none is moved.
    let corto = vec![UNO, 300_000, 0, 700_000];
    assert_eq!(vecino_ils(&corto, &mut rng, &RuidoReal), corto);
}

#[test]
fn busqueda_iterada_nunca_empeora() {
    let datos = datos_de_prueba();
    let mut rng = semillado(5);
    let inicial = vector_au(&datos, &mut rng);
    let bl = Refinamiento::BusquedaLocal {
        vecino: Vecino::Bl,
        ordenada: false,
        max_evaluaciones: 30,
        max_ciclos: 100,
    };
    let w = busqueda_local_iterada_desde(&datos, &inicial, bl, 6, &mut rng, &RuidoReal);
    assert!(es_valido(&w, 3));
    assert!(evaluar(&datos, &w) >= evaluar(&datos, &inicial));
    let una = bl_ils(&datos, &inicial, &mut rng, &RuidoReal);
    assert!(evaluar(&datos, &una) >= evaluar(&datos, &inicial));
    let otra = bl_ils_mut2(&datos, &inicial, &mut rng, &RuidoReal);
    assert!(evaluar(&datos, &otra) >= evaluar(&datos, &inicial));
    assert_eq!(MAX_EVALUACIONES / MAX_EVALUACIONES_BL, 15);
}

#[test]
fn busquedas_iteradas_con_nombre() {
    let datos = datos_de_prueba();
    let mut rng = semillado(6);
    assert!(es_valido(&ils(&datos, &mut rng, &RuidoReal), 3));
    assert!(es_valido(&ils_mut2(&datos, &mut rng, &RuidoReal), 3));
    assert!(es_valido(&ils_afinidad(&datos, &mut rng, &RuidoReal), 3));
    let f_relief = evaluar(&datos, &relief(&datos));
    let w = ils_afinidad_relief(&datos, &mut rng, &RuidoReal);
    assert!(evaluar(&datos, &w) >= f_relief);
    let v = iterated_local_search_general(
        &datos, Inicial::Relief, Refinamiento::TruncadoOptimo, &mut rng, &RuidoReal,
    );
    assert!(evaluar(&datos, &v) >= f_relief);
}

#[test]
fn genes_de_evolucion_diferencial() {
    assert_eq!((DE_CR, DE_F, TAMANO_DE), (500_000, 500_000, 50));
    assert_eq!(gen_rand_1(500_000, 800_000, 200_000), 800_000);
    assert_eq!(gen_rand_1(500_000, 200_000, 800_000), 200_000);
    assert_eq!(gen_rand_1(100_000, 0, 1_000_000), 0);
    assert_eq!(gen_rand_1(900_000, 1_000_000, 0), UNO);
    assert_eq!(gen_rand_1(0, 3, 0), 1);
    assert_eq!(gen_ctb_1(400_000, 1_000_000, 300_000, 500_000), 600_000);
    assert_eq!(gen_ctb_1(400_000, 0, 0, 1_000_000), 0);
    assert_eq!(gen_ctb_1(900_000, 1_000_000, 1_000_000, 0), UNO);
}

fn poblacion_de(datos: &[Dato], vectores: Vec<Vec<u64>>) -> PoblacionDe {
    let mut individuos = Vec::new();
    let mut mejor = 0;
    for (i, pesos) in vectores.into_iter().enumerate() {
        let aptitud = evaluar(datos, &pesos);
        individuos.push(Individuo { aptitud, pesos });
        if aptitud > individuos[mejor].aptitud {
            mejor = i;
        }
    }
    PoblacionDe { individuos, mejor }
}

#[test]
fn operadores_sin_bastantes_individuos_no_cambian_nada() {
    let datos = datos_de_prueba();
    let mut rng = semillado(7);
    let tres = poblacion_de(&datos, vec![vec![UNO, 0, 0], vec![0, UNO, 0], vec![0, 0, UNO]]);
    for actual in 0..3 {
        let r = op_rand_1(&tres, actual, &mut rng);
        assert_eq!(r.0, Some(tres.individuos[actual].aptitud));
        assert_eq!(r.1, tres.individuos[actual].pesos);
    }
    let dos = poblacion_de(&datos, vec![vec![UNO, 0, 0], vec![0, UNO, 0]]);
    for actual in 0..2 {
        let r = op_ctb_1(&dos, actual, &mut rng);
        assert_eq!(r.0, Some(dos.individuos[actual].aptitud));
        assert_eq!(r.1, dos.individuos[actual].pesos);
    }
}

#[test]
fn operador_rand_1_combina_a_los_otros_tres() {
    let datos = datos_de_prueba();
    let mut rng = semillado(8);
    // Members 1, 2 and 3 agree on every gene, so every crossed gene is that value.
    let p = poblacion_de(
        &datos,
        vec![vec![UNO, UNO, UNO], vec![300_000; 3], vec![300_000; 3], vec![300_000; 3]],
    );
    let mut con_cambio = 0;
    for _ in 0..200 {
        let r = op_rand_1(&p, 0, &mut rng);
        assert_eq!(r.1.len(), 3);
        assert!(r.1.iter().all(|x| *x == UNO || *x == 300_000));
        if r.0.is_none() {
            assert!(r.1.iter().any(|x| *x == 300_000));
            con_cambio += 1;
        } else {
            assert_eq!(r.0, Some(p.individuos[0].aptitud));
            assert_eq!(r.1, vec![UNO, UNO, UNO]);
        }
    }
    // No gene is crossed with probability one eighth.
    assert!(con_cambio > 140 && con_cambio < 200, "{}", con_cambio);
}

#[test]
fn operador_ctb_1_tira_hacia_el_mejor() {
    let datos = datos_de_prueba();
    let mut rng = semillado(9);
    let p = poblacion_de(
        &datos,
        vec![vec![UNO, 0, 0], vec![0, UNO, UNO], vec![400_000; 3], vec![400_000; 3]],
    );
    assert_eq!(p.mejor, 0);
    for _ in 0..50 {
        let r = aplicar_operador_de(OperadorDe::Ctb1, &p, 1, &mut rng);
        // x + (mejor - x) / 2, the two others cancelling out.
        assert!(r.1[0] == 0 || r.1[0] == 500_000);
        assert!(r.1[1] == UNO || r.1[1] == 500_000);
        assert!(r.1[2] == UNO || r.1[2] == 500_000);
    }
}

#[test]
fn generacion_de_no_empeora_a_nadie() {
    let datos = datos_de_prueba();
    let mut rng = semillado(10);
    let mut vectores = Vec::new();
    for _ in 0..8 {
        vectores.push(vector_au(&datos, &mut rng));
    }
    let mut p = poblacion_de(&datos, vectores);
    for _ in 0..10 {
        let (nueva, evaluadas) = generacion_de(&datos, &p, OperadorDe::Rand1, 5, &mut rng);
        assert!(evaluadas <= 5);
        assert_eq!(nueva.individuos.len(), 8);
        let mut mejor = 0;
        for i in 0..8 {
            assert!(nueva.individuos[i].aptitud >= p.individuos[i].aptitud);
            assert_eq!(nueva.individuos[i].aptitud, evaluar(&datos, &nueva.individuos[i].pesos));
            mejor = mejor.max(nueva.individuos[i].aptitud);
        }
        assert_eq!(nueva.individuos[nueva.mejor].aptitud, mejor);
        p = nueva;
    }
}

#[test]
fn evolucion_diferencial_de_un_individuo_termina_sin_mejorar() {
    let datos = datos_de_prueba();
    for operador in [OperadorDe::Rand1, OperadorDe::Ctb1] {
        let esperado = vector_au(&datos, &mut semillado(11));
        let w = evolucion_diferencial(&datos, Inicial::VectorAu, operador, 1, 1000, &mut semillado(11));
        assert_eq!(w, esperado);
    }
}

#[test]
fn evolucion_diferencial_devuelve_el_mejor() {
    let datos = datos_de_prueba();
    let mut rng = semillado(12);
    let w = evolucion_diferencial(&datos, Inicial::VectorAu, OperadorDe::Rand1, 10, 200, &mut rng);
    assert!(es_valido(&w, 3));
    let v = evolucion_diferencial(&datos, Inicial::Relief, OperadorDe::Ctb1, 6, 6, &mut rng);
    assert_eq!(v, relief(&datos));
    let u = differential_evolution_general(&datos, Inicial::Relief, OperadorDe::Ctb1, &mut rng);
    assert!(evaluar(&datos, &u) >= evaluar(&datos, &relief(&datos)));
}

#[test]
fn evoluciones_diferenciales_con_nombre() {
    let datos = datos_de_prueba();
    let mut rng = semillado(13);
    assert!(es_valido(&de_rand_1(&datos, &mut rng), 3));
    assert!(es_valido(&de_ctb_1(&datos, &mut rng), 3));
}

#[test]
fn poblacion_de_coherente() {
    let bien = PoblacionDe {
        individuos: vec![
            Individuo { aptitud: 1, pesos: vec![UNO, 0] },
            Individuo { aptitud: 2, pesos: vec![0, UNO] },
        ],
        mejor: 1,
    };
    assert!(bien.es_coherente());
    let copia = bien.clonar();
    assert_eq!(copia.mejor, 1);
    assert_eq!(copia.individuos[0].pesos, vec![UNO, 0]);
    assert_eq!(copia.individuos[1].aptitud, 2);
    assert!(!PoblacionDe { individuos: vec![], mejor: 0 }.es_coherente());
    let fuera = PoblacionDe { individuos: vec![Individuo { aptitud: 1, pesos: vec![0] }], mejor: 1 };
    assert!(!fuera.es_coherente());
    let desigual = PoblacionDe {
        individuos: vec![
            Individuo { aptitud: 1, pesos: vec![UNO, 0] },
            Individuo { aptitud: 2, pesos: vec![0] },
        ],
        mejor: 0,
    };
    assert!(!desigual.es_coherente());
    let grande =
        PoblacionDe { individuos: vec![Individuo { aptitud: 1, pesos: vec![UNO + 1] }], mejor: 0 };
    assert!(!grande.es_coherente());
}

#[test]
fn estado_del_enfriamiento_recibe_vecinos() {
    let mut e = EstadoEnfriamiento::new(vec![1, 2], 50, 1000, 3);
    assert_eq!((e.actual.clone(), e.mejor.clone()), (vec![1, 2], vec![1, 2]));
    assert_eq!((e.f_actual, e.f_mejor, e.temperatura, e.exitos_restantes, e.evaluaciones), (50, 50, 1000, 3, 1));
    // A rejected neighbour only counts as an evaluation.
    e.recibir(vec![9, 9], 99, false);
    assert_eq!((e.actual.clone(), e.f_actual, e.f_mejor, e.exitos_restantes, e.evaluaciones), (vec![1, 2], 50, 50, 3, 2));
    // An accepted worse neighbour becomes the current solution, not the best.
    e.recibir(vec![3, 4], 40, true);
    assert_eq!((e.actual.clone(), e.f_actual, e.mejor.clone(), e.f_mejor), (vec![3, 4], 40, vec![1, 2], 50));
    assert_eq!((e.exitos_restantes, e.evaluaciones), (2, 3));
    // An accepted neighbour that ties with the best does not replace it.
    e.recibir(vec![5, 6], 50, true);
    assert_eq!((e.actual.clone(), e.mejor.clone(), e.f_mejor, e.exitos_restantes), (vec![5, 6], vec![1, 2], 50, 1));
    e.recibir(vec![7, 8], 51, true);
    assert_eq!((e.actual.clone(), e.mejor.clone(), e.f_mejor, e.exitos_restantes), (vec![7, 8], vec![7, 8], 51, 0));
    assert_eq!(e.evaluaciones, 5);
}

#[test]
fn estado_del_enfriamiento_cierra_la_iteracion() {
    let mut e = EstadoEnfriamiento::new(vec![1], 50, 10_000_000, 3);
    // Nothing accepted: the search is over and nothing changes.
    assert!(e.cerrar_iteracion(Enfriamiento::Cauchy, 10_000_000, 100, 3));
    assert_eq!((e.temperatura, e.exitos_restantes), (10_000_000, 3));
    e.recibir(vec![2], 60, true);
    assert!(!e.cerrar_iteracion(Enfriamiento::Cauchy, 10_000_000, 100, 3));
    assert_eq!((e.temperatura, e.exitos_restantes, e.evaluaciones), (99_019, 3, 2));
    assert_eq!((e.actual.clone(), e.f_mejor), (vec![2], 60));
    e.recibir(vec![3], 10, true);
    assert!(!e.cerrar_iteracion(Enfriamiento::Proporcional, 1_000_000, 2, 3));
    // 0.031638 is the largest factor that, rounding down, takes 1.0 to 0.001 in two steps.
    assert_eq!(factor_proporcional(1_000_000, 1000, 2), 31_638);
    assert_eq!(e.temperatura, 99_019 * 31_638 / 1_000_000);
}

#[test]
fn enfriamiento_simulado_cuenta_sus_evaluaciones() {
    let datos = datos_de_prueba();
    let mut rng = semillado(14);
    for tope in [0usize, 1, 2, 31, 32, 100, 1000] {
        let e = enfriar_simuladamente(
            &datos, &[UNO, UNO, UNO], Vecino::Bl, Enfriamiento::Cauchy, tope, &mut rng, &RuidoReal,
        );
        // Thirty neighbours at each temperature.
        let temperaturas = if tope <= 1 { 0 } else { (tope - 1 + 29) / 30 };
        assert!(e.evaluaciones >= 1 && e.evaluaciones <= 1 + 30 * temperaturas);
        assert_eq!(e.f_mejor, evaluar(&datos, &e.mejor));
        assert_eq!(e.f_actual, evaluar(&datos, &e.actual));
        assert!(e.f_mejor >= e.f_actual);
        assert!(e.f_mejor >= evaluar(&datos, &[UNO, UNO, UNO]));
    }
}

#[test]
fn evolucion_diferencial_cuenta_sus_evaluaciones() {
    let datos = datos_de_prueba();
    let mut rng = semillado(15);
    let (p, n) = evolucionar_de(&datos, Inicial::VectorAu, OperadorDe::Rand1, 8, 100, &mut rng);
    assert_eq!(n, 100);
    assert_eq!(p.individuos.len(), 8);
    assert!(p.es_coherente());
    let mejor = p.individuos.iter().map(|i| i.aptitud).max().unwrap();
    assert_eq!(p.individuos[p.mejor].aptitud, mejor);
    // Too few members to build a trial vector: only the first population is evaluated.
    for tam in [1usize, 2] {
        let (q, m) = evolucionar_de(&datos, Inicial::VectorAu, OperadorDe::Ctb1, tam, 1000, &mut rng);
        assert_eq!(m, tam);
        assert_eq!(q.individuos.len(), tam);
    }
    let (_, justo) = evolucionar_de(&datos, Inicial::VectorAu, OperadorDe::Rand1, 5, 5, &mut rng);
    assert_eq!(justo, 5);
}

#[test]
fn trayectorias_normalizadas_o_mejores_que_los_ceros() {
    let datos = datos_de_prueba();
    let n = datos[0].num_atributos();
    let ceros = evaluar(&datos, &vec![0; n]);
    for semilla in 0..10u64 {
        let mut rng = semillado(300 + semilla);
        let base = vector_au(&datos, &mut rng);
        let w = enfriamiento_simulado_desde(
            &datos, &base, Vecino::Bl, Enfriamiento::Cauchy, 120, &mut rng, &RuidoReal,
        );
        let normal = w.iter().any(|x| *x == UNO);
        let nulo = w.iter().all(|x| *x == 0);
        assert!(normal || nulo || evaluar(&datos, &w) > ceros);
        let bl = Refinamiento::BusquedaLocal {
            vecino: Vecino::BlMut2,
            ordenada: false,
            max_evaluaciones: 20,
            max_ciclos: 3,
        };
        let v = busqueda_local_iterada_desde(&datos, &base, bl, 4, &mut rng, &RuidoReal);
        let normal = v.iter().any(|x| *x == UNO);
        let nulo = v.iter().all(|x| *x == 0);
        assert!(normal || nulo || evaluar(&datos, &v) > ceros);
    }
}

#[test]
fn generacion_de_solo_cambia_por_algo_estrictamente_mejor() {
    let datos = datos_de_prueba();
    let mut rng = semillado(77);
    let (p, _) = evolucionar_de(&datos, Inicial::VectorAu, OperadorDe::Rand1, 8, 8, &mut rng);
    for _ in 0..10 {
        let (q, hechas) = generacion_de(&datos, &p, OperadorDe::Rand1, 8, &mut rng);
        assert!(hechas <= 8);
        for i in 0..8 {
            let igual = q.individuos[i].pesos == p.individuos[i].pesos
                && q.individuos[i].aptitud == p.individuos[i].aptitud;
            assert!(igual || q.individuos[i].aptitud > p.individuos[i].aptitud);
            assert_eq!(q.individuos[i].aptitud, evaluar(&datos, &q.individuos[i].pesos));
        }
    }
}

#[test]
fn evolucion_diferencial_acaba_con_el_presupuesto() {
    let datos = datos_de_prueba();
    let mut rng = semillado(81);
    assert!(se_puede_probar(OperadorDe::Rand1, 4));
    assert!(!se_puede_probar(OperadorDe::Rand1, 3));
    assert!(se_puede_probar(OperadorDe::Ctb1, 3));
    assert!(!se_puede_probar(OperadorDe::Ctb1, 2));
    for tope in [4usize, 5, 11, 40] {
        let (p, n) = evolucionar_de(&datos, Inicial::VectorAu, OperadorDe::Rand1, 4, tope, &mut rng);
        assert_eq!(n, tope);
        assert_eq!(p.individuos.len(), 4);
        let mejor = p.individuos[p.mejor].aptitud;
        assert!(p.individuos.iter().all(|i| i.aptitud <= mejor));
    }
    // Three members: DE/rand/1 has no three others, DE/current-to-best/1
    // builds a trial vector for the best member alone.
    let (_, n) = evolucionar_de(&datos, Inicial::VectorAu, OperadorDe::Rand1, 3, 20, &mut rng);
    assert_eq!(n, 3);
    let (_, n) = evolucionar_de(&datos, Inicial::VectorAu, OperadorDe::Ctb1, 3, 20, &mut rng);
    assert_eq!(n, 20);
    let (_, n) = evolucionar_de(&datos, Inicial::VectorAu, OperadorDe::Ctb1, 2, 20, &mut rng);
    assert_eq!(n, 2);
}

#[test]
fn evolucion_diferencial_no_puntua_menos_que_ningun_inicial() {
    let datos = datos_de_prueba();
    for semilla in 0..4u64 {
        let mut rng = semillado(600 + semilla);
        let mut gemelo = semillado(600 + semilla);
        let iniciales: Vec<u64> = (0..5)
            .map(|_| evaluar(&datos, &vector_au(&datos, &mut gemelo)))
            .collect();
        let w = evolucion_diferencial(&datos, Inicial::VectorAu, OperadorDe::Ctb1, 5, 40, &mut rng);
        let f = evaluar(&datos, &w);
        assert!(iniciales.iter().all(|a| f >= *a));
    }
}

#[test]
fn relevar_cambia_solo_por_algo_estrictamente_mejor() {
    let datos = datos_de_prueba();
    let n = datos[0].num_atributos();
    let unos = vec![UNO; n];
    let ceros = vec![0; n];
    let mut p = poblacion_de(&datos, vec![ceros.clone(), unos.clone(), ceros.clone()]);
    let mejor = p.mejor;
    let antes: Vec<(u64, Vec<u64>)> =
        p.individuos.iter().map(|i| (i.aptitud, i.pesos.clone())).collect();
    // A member that comes back with its score is not evaluated.
    assert!(!relevar(&datos, &mut p, 0, (Some(antes[0].0), ceros.clone())));
    // A trial vector of the same score is evaluated and changes nothing.
    assert!(relevar(&datos, &mut p, 0, (None, ceros.clone())));
    let ahora: Vec<(u64, Vec<u64>)> =
        p.individuos.iter().map(|i| (i.aptitud, i.pesos.clone())).collect();
    assert_eq!(antes, ahora);
    assert_eq!(p.mejor, mejor);
    // A strictly better one takes the place.
    let (peor, otro) = if antes[0].0 < antes[1].0 { (0, 1) } else { (1, 0) };
    if antes[peor].0 < antes[otro].0 {
        assert!(relevar(&datos, &mut p, peor, (None, antes[otro].1.clone())));
        assert_eq!(p.individuos[peor].pesos, antes[otro].1);
        assert_eq!(p.individuos[peor].aptitud, antes[otro].0);
        assert_eq!(p.individuos[p.mejor].aptitud, antes[otro].0.max(antes[2].0));
    }
}
