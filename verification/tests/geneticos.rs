use aprendizaje_pesos::aleatorio::Ruido;
use aprendizaje_pesos::evaluacion_pesos::evaluar;
use aprendizaje_pesos::fijo::UNO;
use aprendizaje_pesos::funciones_practica1::{
    afinidad_optima, relief, vector_au, Inicial, Vecino,
};
use aprendizaje_pesos::funciones_practica2::{
    af_01, age_blx, age_blx_mut2, age_ca, age_ca_alt, agg_blx, agg_blx_mut2, agg_ca,
    algoritmo_estacionario, algoritmo_memetico, am_a, am_afinidad_01, am_b, am_c,
    aplicar_memetico, bl_01, bl_01mej, bl_todos, blx_03, ca, ca_alt, colocar, contar_intermedios,
    elegir_padres, mutar_hijo_con,
    cruzar_padres, encontrar_mejor, encontrar_peor, esperanza_mutaciones, evolucionar,
    evolucionar_estacionario, gen_blx, generacion,
    genetico_estacionario, genetico_generacional, grupos_de_cruce, hijo_blx,
    iteracion_estacionaria, memetico_generacional, mutar_candidatos, mutar_hijo, nada,
    padres_del_grupo, pasada,
    numero_a_mutacion, poblacion_inicial, reemplazar, refinar_poblacion, seleccionar, sumar,
    tasa_de_mutacion, torneo, Candidato, Cruce, OperadorMemetico, Seleccion,
    GENERACIONES_MEMETICO, MAX_EVALUACIONES, TAMANO_ESTACIONARIO, TAMANO_GENERACIONAL,
    TASA_MUTACION_GEN,
};
use aprendizaje_pesos::knn::Dato;
use aprendizaje_pesos::poblacion::{va_antes, Cromosoma, Individuo, Poblacion};
use rand::distributions::{IndependentSample, Normal};
use rand::{Isaac64Rng, Rng, SeedableRng};

struct RuidoGenetico;

impl Ruido for RuidoGenetico {
    fn normal(&self, rng: &mut Isaac64Rng, desviacion: u64) -> i64 {
        let x = Normal::new(0.0, desviacion as f64 / 1e6).ind_sample(rng);
        (x * 1e6).round() as i64
    }

    fn exponencial(&self, rng: &mut Isaac64Rng) -> u64 {
        let u: f64 = rng.gen();
        (-u.ln() * 1e6) as u64
    }
}

fn con_semilla(semilla: u64) -> Isaac64Rng {
    let s: &[u64] = &[semilla, 31];
    Isaac64Rng::from_seed(s)
}

fn fila(reales: &[u64], clase: i32) -> Dato {
    Dato::new(reales, &[], clase)
}

fn muestra_genetica() -> Vec<Dato> {
    vec![
        fila(&[0, 0, 500_000], 0),
        fila(&[100_000, 200_000, 500_000], 0),
        fila(&[50_000, 900_000, 400_000], 0),
        fila(&[150_000, 700_000, 600_000], 0),
        fila(&[900_000, 600_000, 500_000], 1),
        fila(&[1_000_000, 800_000, 500_000], 1),
        fila(&[950_000, 100_000, 600_000], 1),
        fila(&[850_000, 300_000, 400_000], 1),
    ]
}

fn pesos_validos(w: &[u64]) -> bool {
    w.len() == 3 && w.iter().all(|x| *x <= UNO)
}

fn claves(p: &Poblacion) -> Vec<(u64, usize)> {
    p.en_orden().iter().map(|c| (c.aptitud, c.id)).collect()
}

fn esta_ordenada(p: &Poblacion) -> bool {
    p.en_orden()
        .windows(2)
        .all(|v| va_antes(v[0].aptitud, v[0].id, v[1].aptitud, v[1].id))
}

fn bien_evaluada(datos: &[Dato], p: &Poblacion) -> bool {
    p.en_orden().iter().all(|c| c.aptitud == evaluar(datos, &c.pesos))
}

#[test]
fn clave_ordena_por_aptitud_y_luego_por_edad() {
    assert!(va_antes(7, 9, 5, 0));
    assert!(!va_antes(5, 0, 7, 9));
    assert!(va_antes(5, 1, 5, 2));
    assert!(!va_antes(5, 2, 5, 1));
    assert!(!va_antes(5, 1, 5, 1));
}

#[test]
fn poblacion_inserta_en_su_rango() {
    let mut p = Poblacion::new();
    assert_eq!(p.len(), 0);
    for (aptitud, id) in [(5u64, 0usize), (7, 1), (5, 2), (7, 3), (9, 4), (1, 5)] {
        assert!(!p.tiene_id(id));
        p.insertar(Cromosoma { aptitud, id, pesos: vec![id as u64] });
        assert!(p.tiene_id(id));
    }
    assert_eq!(claves(&p), vec![(9, 4), (7, 1), (7, 3), (5, 0), (5, 2), (1, 5)]);
    assert_eq!(p.en_orden()[0].pesos, vec![4]);
    assert_eq!(p.rango(7, 2), 2);
    assert_eq!(p.rango(100, 0), 0);
    assert_eq!(p.rango(0, 0), 6);
    let peor = p.eliminar_peor();
    assert_eq!((peor.aptitud, peor.id), (1, 5));
    assert_eq!(p.len(), 5);
    assert!(!p.tiene_id(5));
    let copia = p.en_orden()[1].clonar();
    assert_eq!((copia.aptitud, copia.id, copia.pesos), (7, 1, vec![1]));
}

#[test]
fn gen_blx_marca_un_punto_del_intervalo_ampliado() {
    assert_eq!(gen_blx(200_000, 600_000, 500_000), 400_000);
    assert_eq!(gen_blx(600_000, 200_000, 500_000), 400_000);
    assert_eq!(gen_blx(200_000, 600_000, 0), 80_000);
    assert_eq!(gen_blx(200_000, 600_000, 999_999), 719_999);
    assert_eq!(gen_blx(0, 1_000_000, 0), 0);
    assert_eq!(gen_blx(0, 1_000_000, 999_999), UNO);
    assert_eq!(gen_blx(300_000, 300_000, 123_456), 300_000);
}

#[test]
fn blx_da_dos_hijos_normalizados() {
    let mut rng = con_semilla(1);
    let padre_a = [UNO, 200_000, 0, 500_000];
    let padre_b = [500_000, 200_000, UNO, 400_000];
    for _ in 0..50 {
        let hijos = blx_03(&padre_a, &padre_b, &mut rng);
        assert_eq!(hijos.len(), 2);
        for h in &hijos {
            assert_eq!(h.len(), 4);
            assert_eq!(*h.iter().max().unwrap(), UNO);
        }
    }
    assert_eq!(hijo_blx(&[UNO, 300_000], &[UNO, 300_000], &mut rng), vec![UNO, 300_000]);
    assert_eq!(hijo_blx(&[500_000, 250_000], &[500_000, 250_000], &mut rng), vec![UNO, 500_000]);
}

#[test]
fn cruce_aritmetico_es_la_media_normalizada() {
    assert_eq!(ca(&[UNO, 0, 500_000], &[0, 0, 500_000]), vec![vec![UNO, 0, UNO]]);
    assert_eq!(ca(&[UNO, 200_000], &[UNO, 500_000]), vec![vec![UNO, 350_000]]);
    assert_eq!(ca(&[800_000, 1], &[0, 0]), vec![vec![UNO, 0]]);
    assert_eq!(ca(&[0, 0], &[0, 0]), vec![vec![0, 0]]);
}

#[test]
fn cruce_aritmetico_alternativo_conserva_a_veces_el_gen_podado() {
    let mut rng = con_semilla(2);
    let padre_a = [UNO, 100_000, 150_000];
    let padre_b = [UNO, 900_000, 50_000];
    let mut con_media = 0;
    let mut con_minimo = 0;
    for _ in 0..400 {
        let hijos = ca_alt(&padre_a, &padre_b, &mut rng);
        assert_eq!(hijos.len(), 1);
        assert_eq!(hijos[0][0], UNO);
        assert_eq!(hijos[0][2], 100_000);
        if hijos[0][1] == 500_000 {
            con_media += 1;
        } else {
            assert_eq!(hijos[0][1], 100_000);
            con_minimo += 1;
        }
    }
    assert!(con_minimo > 10 && con_minimo < 100, "{}", con_minimo);
    assert_eq!(con_media + con_minimo, 400);
}

#[test]
fn cruzar_padres_segun_el_operador() {
    let mut rng = con_semilla(3);
    let padre_a = [UNO, 0];
    let padre_b = [0, UNO];
    assert_eq!(cruzar_padres(Cruce::Blx03, &padre_a, &padre_b, &mut rng).len(), 2);
    assert_eq!(cruzar_padres(Cruce::Aritmetico, &padre_a, &padre_b, &mut rng), vec![vec![UNO, UNO]]);
    assert_eq!(cruzar_padres(Cruce::AritmeticoAlt, &padre_a, &padre_b, &mut rng).len(), 1);
}

#[test]
fn cuentas_del_algoritmo_generacional() {
    assert_eq!(grupos_de_cruce(30), 5);
    assert_eq!(grupos_de_cruce(4), 1);
    assert_eq!(grupos_de_cruce(2), 0);
    assert_eq!(grupos_de_cruce(40), 7);
    assert_eq!(esperanza_mutaciones(30 * 50), 2);
    assert_eq!(esperanza_mutaciones(499), 0);
    assert_eq!(esperanza_mutaciones(500), 1);
    assert_eq!(numero_a_mutacion(1234, 90, 3), (21, 1));
    assert_eq!(numero_a_mutacion(89, 90, 3), (29, 2));
    assert_eq!(sumar(2, 3), 5);
    assert_eq!(sumar(usize::MAX, 3), usize::MAX);
    assert_eq!(contar_intermedios(&[0, UNO, 1, 999_999, 500_000]), 3);
    assert_eq!(
        (TAMANO_GENERACIONAL, TAMANO_ESTACIONARIO, MAX_EVALUACIONES, GENERACIONES_MEMETICO),
        (30, 30, 15000, 10)
    );
}

#[test]
fn poblacion_inicial_numerada_y_ordenada() {
    let datos = muestra_genetica();
    let mut rng = con_semilla(4);
    let p = poblacion_inicial(&datos, Inicial::VectorAu, 12, &mut rng);
    assert_eq!(p.len(), 12);
    assert!(esta_ordenada(&p));
    assert!(bien_evaluada(&datos, &p));
    let mut ids: Vec<usize> = p.en_orden().iter().map(|c| c.id).collect();
    ids.sort();
    assert_eq!(ids, (0..12).collect::<Vec<usize>>());
}

#[test]
fn seleccion_da_tantos_candidatos_como_individuos() {
    let datos = muestra_genetica();
    let mut rng = con_semilla(5);
    for tam in [4usize, 5, 7, 12, 30] {
        let p = poblacion_inicial(&datos, Inicial::VectorAu, tam, &mut rng);
        for cruce in [Cruce::Blx03, Cruce::Aritmetico] {
            let candidatos = seleccionar(&datos, &p, cruce, &mut rng);
            assert_eq!(candidatos.len(), tam);
            assert!(candidatos[0].clave.is_none());
            for c in &candidatos {
                assert!(pesos_validos(&c.pesos));
                if let Some((aptitud, id)) = c.clave {
                    let miembro = p.en_orden().into_iter().find(|x| x.id == id).unwrap();
                    assert_eq!(miembro.aptitud, aptitud);
                    assert_eq!(miembro.pesos, c.pesos);
                }
            }
        }
    }
}

#[test]
fn seleccion_de_treinta_cruza_veinte_y_conserva_diez() {
    let datos = muestra_genetica();
    let mut rng = con_semilla(6);
    let p = poblacion_inicial(&datos, Inicial::VectorAu, 30, &mut rng);
    let candidatos = seleccionar(&datos, &p, Cruce::Blx03, &mut rng);
    let nuevos = candidatos.iter().filter(|c| c.clave.is_none()).count();
    assert_eq!(nuevos, 20);
    let con_un_hijo = seleccionar(&datos, &p, Cruce::Aritmetico, &mut rng);
    assert_eq!(con_un_hijo.iter().filter(|c| c.clave.is_none()).count(), 10);
}

#[test]
fn mutacion_quita_la_clave_al_mutado() {
    let datos = muestra_genetica();
    let mut rng = con_semilla(7);
    // 200 individuals of 3 genes: 600 genes, one mutation.
    let p = poblacion_inicial(&datos, Inicial::VectorAu, 200, &mut rng);
    let mut candidatos: Vec<Candidato> = p
        .en_orden()
        .iter()
        .map(|c| Candidato { clave: Some((c.aptitud, c.id)), pesos: c.pesos.clone() })
        .collect();
    mutar_candidatos(&datos, &p, &mut candidatos, Vecino::Bl, &mut rng, &RuidoGenetico);
    assert_eq!(candidatos.len(), 200);
    assert_eq!(candidatos.iter().filter(|c| c.clave.is_none()).count(), 1);
    assert!(candidatos.iter().all(|c| pesos_validos(&c.pesos)));
}

#[test]
fn reemplazo_conserva_al_mejor_anterior() {
    let datos = muestra_genetica();
    let mut rng = con_semilla(8);
    let vieja = poblacion_inicial(&datos, Inicial::VectorAu, 6, &mut rng);
    let malo = vec![0, 0, UNO];
    let candidatos: Vec<Candidato> =
        (0..6).map(|_| Candidato { clave: None, pesos: malo.clone() }).collect();
    let mut n = 6;
    let nueva = reemplazar(&datos, &vieja, candidatos, &mut n);
    assert_eq!(n, 12);
    assert_eq!(nueva.len(), 6);
    assert!(esta_ordenada(&nueva));
    assert!(bien_evaluada(&datos, &nueva));
    assert!(nueva.en_orden()[0].aptitud >= vieja.en_orden()[0].aptitud);
    let ids: Vec<usize> = nueva.en_orden().iter().map(|c| c.id).collect();
    if evaluar(&datos, &malo) < vieja.en_orden()[0].aptitud {
        assert!(ids.contains(&vieja.en_orden()[0].id));
    }
    assert!(ids.iter().filter(|i| **i > 6).count() >= 5);
}

#[test]
fn reemplazo_rellena_con_los_siguientes_mejores() {
    let datos = muestra_genetica();
    let mut rng = con_semilla(9);
    let vieja = poblacion_inicial(&datos, Inicial::VectorAu, 5, &mut rng);
    // One new individual and the worst of the old ones four times over.
    let miembros_viejos = vieja.en_orden();
    let peor = &miembros_viejos[4];
    let mut candidatos = vec![Candidato { clave: None, pesos: vec![UNO, UNO, UNO] }];
    for _ in 0..4 {
        candidatos.push(Candidato { clave: Some((peor.aptitud, peor.id)), pesos: peor.pesos.clone() });
    }
    let mut n = 5;
    let nueva = reemplazar(&datos, &vieja, candidatos, &mut n);
    assert_eq!(n, 6);
    assert_eq!(nueva.len(), 5);
    assert!(esta_ordenada(&nueva));
    let mut ids: Vec<usize> = nueva.en_orden().iter().map(|c| c.id).collect();
    ids.sort();
    let mut esperados =
        vec![6, peor.id, vieja.en_orden()[0].id, vieja.en_orden()[1].id, vieja.en_orden()[2].id];
    esperados.sort();
    assert_eq!(ids, esperados);
}

#[test]
fn generacion_mantiene_tamano_y_no_baja_el_mejor() {
    let datos = muestra_genetica();
    let mut rng = con_semilla(10);
    let mut p = poblacion_inicial(&datos, Inicial::VectorAu, 10, &mut rng);
    let mut n = 10;
    for _ in 0..30 {
        let mejor = p.en_orden()[0].aptitud;
        let antes = n;
        generacion(&datos, &mut p, Cruce::Blx03, Vecino::Bl, &mut n, &mut rng, &RuidoGenetico);
        assert_eq!(p.len(), 10);
        assert!(n > antes && n <= antes + 10);
        assert!(p.en_orden()[0].aptitud >= mejor);
        assert!(esta_ordenada(&p));
        assert!(bien_evaluada(&datos, &p));
        assert!(p.en_orden().iter().all(|c| c.id <= n));
    }
}

#[test]
fn operadores_memeticos_no_empeoran_a_nadie() {
    let datos = muestra_genetica();
    let mut rng = con_semilla(11);
    for operador in [
        OperadorMemetico::BlTodos,
        OperadorMemetico::Bl01,
        OperadorMemetico::Bl01Mej,
        OperadorMemetico::Af01,
    ] {
        let mut p = poblacion_inicial(&datos, Inicial::VectorAu, 10, &mut rng);
        let antes: Vec<(u64, usize)> = claves(&p);
        let cuenta = aplicar_memetico(operador, &datos, &mut p, &mut rng, &RuidoGenetico);
        assert_eq!(p.len(), 10);
        assert!(esta_ordenada(&p));
        assert!(bien_evaluada(&datos, &p));
        for (aptitud, id) in antes {
            let ahora = p.en_orden().into_iter().find(|c| c.id == id).unwrap();
            assert!(ahora.aptitud >= aptitud);
        }
        if operador == OperadorMemetico::BlTodos {
            assert_eq!(cuenta, 10 * (1 + 2 * 3));
        }
        if operador == OperadorMemetico::Bl01Mej {
            assert_eq!(cuenta, 1 + 2 * 3);
        }
    }
}

#[test]
fn operadores_memeticos_por_su_nombre() {
    let datos = muestra_genetica();
    let mut rng = con_semilla(12);
    let mut p = poblacion_inicial(&datos, Inicial::VectorAu, 20, &mut rng);
    let antes = claves(&p);
    assert_eq!(nada(&mut p), 0);
    assert_eq!(claves(&p), antes);
    assert_eq!(
        aplicar_memetico(OperadorMemetico::Nada, &datos, &mut p, &mut rng, &RuidoGenetico),
        0
    );
    assert_eq!(claves(&p), antes);
    assert_eq!(bl_todos(&datos, &mut p, &mut rng, &RuidoGenetico), 20 * 7);
    assert_eq!(bl_01mej(&datos, &mut p, &mut rng, &RuidoGenetico), 2 * 7);
    assert_eq!(bl_01(&datos, &mut p, &mut rng, &RuidoGenetico) % 7, 0);
    let cargo = af_01(&datos, &mut p, &mut rng, &RuidoGenetico);
    assert!(cargo <= 20 * 4);
    assert_eq!(
        refinar_poblacion(&datos, &mut p, Seleccion::Mejores(0), false, &mut rng, &RuidoGenetico),
        0
    );
    assert_eq!(p.len(), 20);
}

#[test]
fn memetico_con_presupuesto_corto() {
    let datos = muestra_genetica();
    let mut rng = con_semilla(13);
    let w = algoritmo_memetico(
        &datos,
        Inicial::VectorAu,
        Cruce::Blx03,
        Vecino::Bl,
        (2, OperadorMemetico::BlTodos),
        8,
        200,
        &mut rng,
        &RuidoGenetico,
    );
    assert!(pesos_validos(&w));
    // With no budget beyond the first population one generation is still made.
    let v = algoritmo_memetico(
        &datos,
        Inicial::Relief,
        Cruce::Aritmetico,
        Vecino::BlMut2,
        (1, OperadorMemetico::Nada),
        4,
        0,
        &mut rng,
        &RuidoGenetico,
    );
    assert!(evaluar(&datos, &v) >= evaluar(&datos, &relief(&datos)));
}

#[test]
fn torneo_peor_y_mejor_del_estacionario() {
    let p = vec![
        Individuo { pesos: vec![0], aptitud: 5 },
        Individuo { pesos: vec![1], aptitud: 9 },
        Individuo { pesos: vec![2], aptitud: 5 },
        Individuo { pesos: vec![3], aptitud: 9 },
    ];
    assert_eq!(encontrar_peor(&p), 0);
    assert_eq!(encontrar_mejor(&p), 3);
    assert_eq!(torneo(&p, 0, 1), 1);
    assert_eq!(torneo(&p, 1, 0), 1);
    assert_eq!(torneo(&p, 0, 2), 0);
    assert_eq!(torneo(&p, 2, 0), 2);
    assert_eq!(tasa_de_mutacion(3, 3), 100 * TASA_MUTACION_GEN);
    assert_eq!(tasa_de_mutacion(3, 1), TASA_MUTACION_GEN);
    assert_eq!(TASA_MUTACION_GEN, 1000);
}

#[test]
fn mutar_hijo_segun_la_tasa() {
    let mut rng = con_semilla(14);
    let hijo = vec![UNO, 500_000, 250_000];
    assert_eq!(mutar_hijo(hijo.clone(), Vecino::Bl, 0, &mut rng, &RuidoGenetico), hijo);
    let mut cambiados = 0;
    for _ in 0..100 {
        let m = mutar_hijo(hijo.clone(), Vecino::Bl, UNO, &mut rng, &RuidoGenetico);
        assert!(pesos_validos(&m));
        if m != hijo {
            cambiados += 1;
        }
    }
    assert!(cambiados > 90);
}

#[test]
fn iteracion_estacionaria_no_empeora_ningun_puesto() {
    let datos = muestra_genetica();
    let mut rng = con_semilla(15);
    let mut p: Vec<Individuo> = (0..8)
        .map(|_| {
            let pesos = vector_au(&datos, &mut rng);
            let aptitud = evaluar(&datos, &pesos);
            Individuo { pesos, aptitud }
        })
        .collect();
    let mut n = 8;
    for _ in 0..60 {
        let antes: Vec<u64> = p.iter().map(|i| i.aptitud).collect();
        let n_antes = n;
        iteracion_estacionaria(&datos, &mut p, Cruce::Blx03, Vecino::Bl, &mut n, &mut rng, &RuidoGenetico);
        assert_eq!(n, n_antes + 2);
        assert_eq!(p.len(), 8);
        for i in 0..8 {
            assert!(p[i].aptitud >= antes[i]);
            assert_eq!(p[i].aptitud, evaluar(&datos, &p[i].pesos));
        }
    }
    let n_antes = n;
    iteracion_estacionaria(&datos, &mut p, Cruce::Aritmetico, Vecino::Bl, &mut n, &mut rng, &RuidoGenetico);
    assert_eq!(n, n_antes + 1);
}

#[test]
fn estacionario_con_presupuesto_corto() {
    let datos = muestra_genetica();
    let mut rng = con_semilla(16);
    let w = algoritmo_estacionario(
        &datos, Inicial::VectorAu, Cruce::AritmeticoAlt, Vecino::Bl, 1, 20, &mut rng, &RuidoGenetico,
    );
    assert!(pesos_validos(&w));
    let v = algoritmo_estacionario(
        &datos, Inicial::Relief, Cruce::Blx03, Vecino::Bl, 5, 0, &mut rng, &RuidoGenetico,
    );
    assert!(evaluar(&datos, &v) >= evaluar(&datos, &relief(&datos)));
}

#[test]
fn geneticos_generales_con_las_constantes() {
    let datos = muestra_genetica();
    let mut rng = con_semilla(17);
    let r = &RuidoGenetico;
    assert!(pesos_validos(&genetico_generacional(
        &datos, Inicial::VectorAu, Cruce::Aritmetico, Vecino::Bl, &mut rng, r
    )));
    assert!(pesos_validos(&genetico_estacionario(
        &datos, Inicial::VectorAu, Cruce::Aritmetico, Vecino::Bl, &mut rng, r
    )));
    assert!(pesos_validos(&memetico_generacional(
        &datos, Inicial::VectorAu, Cruce::Blx03, Vecino::Bl, (10, OperadorMemetico::Bl01), &mut rng, r
    )));
}

#[test]
fn geneticos_con_nombre() {
    let datos = muestra_genetica();
    let mut rng = con_semilla(18);
    let r = &RuidoGenetico;
    assert!(pesos_validos(&agg_blx(&datos, &mut rng, r)));
    assert!(pesos_validos(&agg_ca(&datos, &mut rng, r)));
    assert!(pesos_validos(&age_blx(&datos, &mut rng, r)));
    assert!(pesos_validos(&age_ca(&datos, &mut rng, r)));
    assert!(pesos_validos(&age_ca_alt(&datos, &mut rng, r)));
    assert!(pesos_validos(&agg_blx_mut2(&datos, &mut rng, r)));
    assert!(pesos_validos(&age_blx_mut2(&datos, &mut rng, r)));
}

#[test]
fn memeticos_con_nombre() {
    let datos = muestra_genetica();
    let mut rng = con_semilla(19);
    let r = &RuidoGenetico;
    assert!(pesos_validos(&am_a(&datos, &mut rng, r)));
    assert!(pesos_validos(&am_b(&datos, &mut rng, r)));
    assert!(pesos_validos(&am_c(&datos, &mut rng, r)));
    assert!(pesos_validos(&am_afinidad_01(&datos, &mut rng, r)));
}

#[test]
fn evolucion_generacional_gasta_el_presupuesto() {
    let datos = muestra_genetica();
    let mut rng = con_semilla(20);
    for tope in [0usize, 10, 11, 57, 300] {
        let (p, n) = evolucionar(
            &datos,
            Inicial::VectorAu,
            Cruce::Blx03,
            Vecino::Bl,
            (3, OperadorMemetico::Bl01Mej),
            10,
            tope,
            &mut rng,
            &RuidoGenetico,
        );
        assert!(n >= tope && n > 10);
        assert_eq!(p.len(), 10);
        assert!(esta_ordenada(&p));
        assert!(bien_evaluada(&datos, &p));
        assert!(p.en_orden().iter().all(|c| c.id <= n));
    }
}

#[test]
fn evolucion_estacionaria_gasta_el_presupuesto() {
    let datos = muestra_genetica();
    let mut rng = con_semilla(21);
    for tope in [0usize, 6, 7, 8, 100] {
        let (p, n) = evolucionar_estacionario(
            &datos, Inicial::VectorAu, Cruce::Blx03, Vecino::Bl, 6, tope, &mut rng, &RuidoGenetico,
        );
        assert!(n >= tope && n > 6);
        assert!(n <= tope + 1 || n <= 8);
        assert_eq!(p.len(), 6);
        assert!(p.iter().all(|i| i.aptitud == evaluar(&datos, &i.pesos)));
    }
    let (_, n) = evolucionar_estacionario(
        &datos, Inicial::VectorAu, Cruce::Aritmetico, Vecino::Bl, 6, 20, &mut rng, &RuidoGenetico,
    );
    assert_eq!(n, 20);
}

#[test]
fn padres_de_un_grupo_de_cuatro() {
    assert_eq!(padres_del_grupo(&[5, 4, 3, 2, 1, 0], 0), (4, 2));
    assert_eq!(padres_del_grupo(&[0, 9, 8, 1, 7, 7, 2, 3], 1), (7, 2));
    assert_eq!(padres_del_grupo(&[0, 9, 8, 1, 7, 7, 2, 3], 0), (0, 1));
}

#[test]
fn pasada_con_cruce_aritmetico_y_orden_dado() {
    let datos = muestra_genetica();
    let mut rng = con_semilla(22);
    let p = poblacion_inicial(&datos, Inicial::VectorAu, 7, &mut rng);
    // One group of four, then the pairs (1, 0) and the member 6 alone.
    let ronda = pasada(&datos, &p, &[5, 4, 3, 2, 1, 0, 6], Cruce::Aritmetico, &mut rng);
    assert_eq!(ronda.len(), 4);
    assert_eq!(ronda[0].clave, None);
    assert_eq!(
        ronda[0].pesos,
        ca(&p.en_orden()[4].pesos, &p.en_orden()[2].pesos)[0]
    );
    for (k, j) in [(1usize, 2usize), (2, 0), (3, 6)] {
        assert_eq!(ronda[k].clave, Some((p.en_orden()[j].aptitud, p.en_orden()[j].id)));
        assert_eq!(ronda[k].pesos, p.en_orden()[j].pesos);
    }
}

#[test]
fn pasada_con_cruce_blx_da_dos_hijos_por_grupo() {
    let datos = muestra_genetica();
    let mut rng = con_semilla(23);
    let p = poblacion_inicial(&datos, Inicial::VectorAu, 9, &mut rng);
    // Two groups of four and the member 4 alone.
    let ronda = pasada(&datos, &p, &[8, 7, 6, 5, 3, 2, 1, 0, 4], Cruce::Blx03, &mut rng);
    assert_eq!(ronda.len(), 5);
    for k in 0..4 {
        assert_eq!(ronda[k].clave, None);
        assert!(pesos_validos(&ronda[k].pesos));
    }
    assert_eq!(ronda[4].clave, Some((p.en_orden()[4].aptitud, p.en_orden()[4].id)));
}

#[test]
fn memetico_de_los_mejores_deja_a_los_demas_como_estaban() {
    let datos = muestra_genetica();
    let mut rng = con_semilla(24);
    let mut p = poblacion_inicial(&datos, Inicial::VectorAu, 10, &mut rng);
    let antes: Vec<(u64, usize, Vec<u64>)> =
        p.en_orden().iter().map(|c| (c.aptitud, c.id, c.pesos.clone())).collect();
    let cuenta = aplicar_memetico(OperadorMemetico::Bl01Mej, &datos, &mut p, &mut rng, &RuidoGenetico);
    assert_eq!(cuenta, 7);
    // Only the best of the ten is refined.
    for (aptitud, id, pesos) in antes.iter().skip(1) {
        let ahora = p.en_orden().into_iter().find(|c| c.id == *id).unwrap();
        assert_eq!((ahora.aptitud, &ahora.pesos), (*aptitud, pesos));
    }
    let mejor = p.en_orden().into_iter().find(|c| c.id == antes[0].1).unwrap();
    assert!(mejor.aptitud >= antes[0].0);
}

#[test]
fn memetico_por_afinidad_reescala_a_los_elegidos() {
    let datos = muestra_genetica();
    let mut rng = con_semilla(25);
    let mut p = poblacion_inicial(&datos, Inicial::VectorAu, 40, &mut rng);
    let antes: Vec<(u64, usize, Vec<u64>)> =
        p.en_orden().iter().map(|c| (c.aptitud, c.id, c.pesos.clone())).collect();
    let cuenta = aplicar_memetico(OperadorMemetico::Af01, &datos, &mut p, &mut rng, &RuidoGenetico);
    let mut cargo = 0;
    for (aptitud, id, pesos) in &antes {
        let ahora = p.en_orden().into_iter().find(|c| c.id == *id).unwrap();
        let afinados = afinidad_optima(&datos, pesos);
        if ahora.pesos == *pesos && ahora.aptitud == *aptitud && afinados != *pesos {
            continue;
        }
        assert_eq!(ahora.pesos, afinados);
        assert_eq!(ahora.aptitud, evaluar(&datos, &afinados));
        if afinados != *pesos {
            cargo += 1 + contar_intermedios(pesos);
        }
    }
    // Those whose weights the rescaling leaves alone may or may not have been picked.
    assert!(cuenta >= cargo);
    assert!(cuenta <= 40 * 4);
}

#[test]
fn iteracion_estacionaria_solo_releva_al_peor_por_algo_mejor() {
    let datos = muestra_genetica();
    let mut rng = con_semilla(55);
    let (mut p, _) = evolucionar_estacionario(
        &datos, Inicial::VectorAu, Cruce::Aritmetico, Vecino::Bl, 6, 0, &mut rng, &RuidoGenetico,
    );
    for _ in 0..40 {
        let antes: Vec<(Vec<u64>, u64)> = p.iter().map(|i| (i.pesos.clone(), i.aptitud)).collect();
        let peor = encontrar_peor(&p);
        let mut n: usize = 0;
        iteracion_estacionaria(&datos, &mut p, Cruce::Aritmetico, Vecino::Bl, &mut n, &mut rng, &RuidoGenetico);
        assert_eq!(n, 1);
        for i in 0..6 {
            if i != peor {
                assert_eq!((p[i].pesos.clone(), p[i].aptitud), antes[i]);
            } else {
                let igual = (p[i].pesos.clone(), p[i].aptitud) == antes[i];
                assert!(igual || p[i].aptitud > antes[i].1);
            }
        }
    }
}

#[test]
fn estacionario_no_puntua_menos_que_ningun_inicial() {
    let datos = muestra_genetica();
    for semilla in 0..5u64 {
        let mut rng = con_semilla(400 + semilla);
        let mut gemelo = con_semilla(400 + semilla);
        let iniciales: Vec<u64> = (0..6)
            .map(|_| evaluar(&datos, &vector_au(&datos, &mut gemelo)))
            .collect();
        let w = algoritmo_estacionario(
            &datos, Inicial::VectorAu, Cruce::Blx03, Vecino::Bl, 6, 40, &mut rng, &RuidoGenetico,
        );
        let f = evaluar(&datos, &w);
        assert!(iniciales.iter().all(|a| f >= *a));
    }
}

#[test]
fn la_cuenta_del_memetico_entra_en_el_presupuesto() {
    let datos = muestra_genetica();
    let mut rng = con_semilla(66);
    // A local search on every individual after each generation: one
    // generation costs at most 4 evaluations, the operator 4 * (1 + 2 * 3).
    let (p, n) = evolucionar(
        &datos, Inicial::VectorAu, Cruce::Blx03, Vecino::Bl, (1, OperadorMemetico::BlTodos), 4,
        5, &mut rng, &RuidoGenetico,
    );
    assert_eq!(p.en_orden().len(), 4);
    assert!(n > 4 + 28 && n <= 4 + 4 + 28);
}

#[test]
fn padres_por_torneo_y_tasa_de_su_encuentro() {
    let p = vec![
        Individuo { pesos: vec![UNO, 0], aptitud: 40 },
        Individuo { pesos: vec![UNO, 0], aptitud: 40 },
        Individuo { pesos: vec![0, UNO], aptitud: 70 },
        Individuo { pesos: vec![UNO, UNO], aptitud: 10 },
    ];
    // The higher score wins; the first wins a tie.
    assert_eq!(elegir_padres(&p, 0, 2, 3, 1), (2, 1, TASA_MUTACION_GEN));
    assert_eq!(elegir_padres(&p, 0, 1, 1, 0), (0, 1, TASA_MUTACION_GEN));
    // One member wins both tournaments: a hundred times the rate.
    assert_eq!(elegir_padres(&p, 3, 2, 2, 0), (2, 2, 100 * TASA_MUTACION_GEN));
    assert_eq!(elegir_padres(&p, 3, 3, 3, 3), (3, 3, 100 * TASA_MUTACION_GEN));
    // Equal vectors at different positions are different members.
    assert_eq!(elegir_padres(&p, 0, 3, 1, 3), (0, 1, TASA_MUTACION_GEN));
}

#[test]
fn mutar_hijo_con_sorteos_dados() {
    // Only the gene whose draw is below the rate moves.
    let m = mutar_hijo_con(vec![UNO, 500_000], Vecino::Bl, 1000, &[999, 1000], &[-100_000, 200_000]);
    assert_eq!(m, vec![UNO, 555_555]);
    let m = mutar_hijo_con(vec![UNO, 500_000], Vecino::Bl, 1000, &[1000, 999], &[-100_000, 200_000]);
    assert_eq!(m, vec![UNO, 700_000]);
    let m = mutar_hijo_con(vec![UNO, 500_000], Vecino::Bl, 0, &[0, 0], &[-100_000, 200_000]);
    assert_eq!(m, vec![UNO, 500_000]);
    let m = mutar_hijo_con(vec![UNO, 500_000], Vecino::BlMut2, UNO, &[0, 0], &[0, 1_500_000]);
    assert_eq!(m, vec![500_000, UNO]);
}

#[test]
fn colocar_releva_al_peor_solo_por_algo_mejor() {
    let datos = muestra_genetica();
    let vectores: Vec<Vec<u64>> = vec![vec![UNO, UNO, UNO], vec![UNO, 0, 0], vec![0, UNO, 0]];
    let mut p: Vec<Individuo> = vectores
        .iter()
        .map(|w| Individuo { pesos: w.clone(), aptitud: evaluar(&datos, w) })
        .collect();
    let peor = encontrar_peor(&p);
    let peor_antes = p[peor].aptitud;
    // A copy of the worst member scores the same: nothing changes.
    let copia = p[peor].pesos.clone();
    let antes: Vec<(Vec<u64>, u64)> = p.iter().map(|i| (i.pesos.clone(), i.aptitud)).collect();
    assert_eq!(colocar(&datos, &mut p, peor, copia), peor);
    let ahora: Vec<(Vec<u64>, u64)> = p.iter().map(|i| (i.pesos.clone(), i.aptitud)).collect();
    assert_eq!(antes, ahora);
    // A copy of the best member scores above the worst, unless all score the same.
    let mejor = encontrar_mejor(&p);
    if p[mejor].aptitud > peor_antes {
        let entra = p[mejor].pesos.clone();
        let nuevo_peor = colocar(&datos, &mut p, peor, entra.clone());
        assert_eq!(p[peor].pesos, entra);
        assert_eq!(p[peor].aptitud, evaluar(&datos, &entra));
        assert_eq!(nuevo_peor, encontrar_peor(&p));
    }
}

#[test]
fn poblacion_inicial_en_orden_de_creacion() {
    // The first population is ranked by score and then by age, and its
    // members are numbered in the order of their creation.
    let datos = muestra_genetica();
    let mut rng = con_semilla(91);
    let p = poblacion_inicial(&datos, Inicial::VectorAu, 6, &mut rng);
    for k in 1..6 {
        let miembros = p.en_orden();
        let a = &miembros[k - 1];
        let b = &miembros[k];
        assert!(a.aptitud > b.aptitud || (a.aptitud == b.aptitud && a.id < b.id));
    }
    let mut ids: Vec<usize> = p.en_orden().iter().map(|c| c.id).collect();
    ids.sort();
    assert_eq!(ids, vec![0, 1, 2, 3, 4, 5]);
    let mut gemelo = con_semilla(91);
    for i in 0..6 {
        let v = vector_au(&datos, &mut gemelo);
        let c = p.en_orden().into_iter().find(|c| c.id == i).unwrap();
        assert_eq!(c.pesos, v);
        assert_eq!(c.aptitud, evaluar(&datos, &v));
    }
}

#[test]
fn generacional_no_puntua_menos_que_ningun_inicial() {
    let datos = muestra_genetica();
    for semilla in 0..3u64 {
        let mut rng = con_semilla(500 + semilla);
        let mut gemelo = con_semilla(500 + semilla);
        let iniciales: Vec<u64> = (0..4)
            .map(|_| evaluar(&datos, &vector_au(&datos, &mut gemelo)))
            .collect();
        let w = algoritmo_memetico(
            &datos, Inicial::VectorAu, Cruce::Blx03, Vecino::Bl, (2, OperadorMemetico::Bl01), 4,
            30, &mut rng, &RuidoGenetico,
        );
        let f = evaluar(&datos, &w);
        assert!(iniciales.iter().all(|a| f >= *a));
    }
}
