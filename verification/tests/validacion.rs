use aprendizaje_pesos::aleatorio::{
    aleatorio_distinto, permutacion_aleatoria, posiciones_libres, uniforme, uniforme_desde, Ruido,
};
use aprendizaje_pesos::algoritmos::{ejecutar, es_aplicable, usa_relief, Algoritmo};
use aprendizaje_pesos::evaluacion_pesos::{
    conjunto, evaluar, ffcv, indices_entrenamiento, medias, medir, tiene_clases_no_negativas,
    validar_pliegue, ErrorValidacion, Estadisticos, N_FOLD,
};
use aprendizaje_pesos::fijo::{CIEN, UNO};
use aprendizaje_pesos::funciones_practica1::relief;
use aprendizaje_pesos::knn::Dato;
use aprendizaje_pesos::particion::{
    contar_clases, datos_de_clase, es_permutacion_valida, particionar, redondear_cociente,
    tramo_de,
};
use aprendizaje_pesos::semilla::semilla_desde_bytes;
use rand::distributions::{IndependentSample, Normal};
use rand::{Isaac64Rng, Rng, SeedableRng};

struct RuidoValidacion;

impl Ruido for RuidoValidacion {
    fn normal(&self, rng: &mut Isaac64Rng, desviacion: u64) -> i64 {
        let x = Normal::new(0.0, desviacion as f64 / 1e6).ind_sample(rng);
        (x * 1e6).round() as i64
    }

    fn exponencial(&self, rng: &mut Isaac64Rng) -> u64 {
        let u: f64 = rng.gen();
        (-u.ln() * 1e6) as u64
    }
}

fn sembrado(semilla: u64) -> Isaac64Rng {
    let s: &[u64] = &[semilla, 41];
    Isaac64Rng::from_seed(s)
}

fn punto(reales: &[u64], clase: i32) -> Dato {
    Dato::new(reales, &[], clase)
}

/// Twenty records in two classes far apart, and a third attribute that says nothing.
fn veinte() -> Vec<Dato> {
    let mut v = Vec::new();
    for i in 0..10u64 {
        v.push(punto(&[10_000 * i, 100_000 + 5_000 * i, 500_000], 0));
        v.push(punto(&[UNO - 10_000 * i, 900_000 - 5_000 * i, 500_000], 1));
    }
    v
}

#[test]
fn semilla_lee_ocho_bytes_por_numero() {
    assert_eq!(semilla_desde_bytes(b"ABCDEFGH"), vec![0x4142_4344_4546_4748]);
    assert_eq!(
        semilla_desde_bytes(b"ABCDEFGHI"),
        vec![0x4142_4344_4546_4748, 0x4900_0000_0000_0000]
    );
    assert_eq!(semilla_desde_bytes(b"\x01"), vec![0x0100_0000_0000_0000]);
    assert_eq!(semilla_desde_bytes(b""), Vec::<u64>::new());
    assert_eq!(semilla_desde_bytes(&[0xff; 16]), vec![u64::MAX, u64::MAX]);
}

#[test]
fn uniforme_lee_la_fraccion_de_52_bits() {
    assert_eq!(uniforme_desde(0), 0);
    assert_eq!(uniforme_desde(1 << 51), 500_000);
    assert_eq!(uniforme_desde(1 << 50), 250_000);
    assert_eq!(uniforme_desde(u64::MAX), 999_999);
    assert_eq!(uniforme_desde(1 << 52), 0);
    assert_eq!(uniforme_desde((1 << 52) | (1 << 51)), 500_000);
}

#[test]
fn uniforme_sigue_al_generador() {
    let mut a = sembrado(1);
    let mut b = sembrado(1);
    let mut distintos = std::collections::BTreeSet::new();
    for _ in 0..200 {
        let u = uniforme(&mut a);
        let x: f64 = b.gen();
        assert!(u < UNO);
        assert_eq!(u, (x * 1e6) as u64);
        distintos.insert(u);
    }
    assert!(distintos.len() > 150);
}

#[test]
fn posiciones_libres_en_orden() {
    assert_eq!(posiciones_libres(5, &[1, 3]), vec![0, 2, 4]);
    assert_eq!(posiciones_libres(3, &[]), vec![0, 1, 2]);
    assert_eq!(posiciones_libres(3, &[0, 1, 2, 2, 7]), Vec::<usize>::new());
    assert_eq!(posiciones_libres(0, &[]), Vec::<usize>::new());
}

#[test]
fn aleatorio_distinto_evita_los_excluidos() {
    let mut rng = sembrado(2);
    let mut vistos = std::collections::BTreeSet::new();
    for _ in 0..300 {
        let p = aleatorio_distinto(&mut rng, 6, &[0, 4]).unwrap();
        assert!(p < 6 && p != 0 && p != 4);
        vistos.insert(p);
    }
    assert_eq!(vistos.into_iter().collect::<Vec<usize>>(), vec![1, 2, 3, 5]);
    assert_eq!(aleatorio_distinto(&mut rng, 2, &[0, 1]), None);
    assert_eq!(aleatorio_distinto(&mut rng, 0, &[]), None);
    assert_eq!(aleatorio_distinto(&mut rng, 3, &[0, 1]), Some(2));
}

#[test]
fn permutacion_aleatoria_tiene_cada_posicion_una_vez() {
    let mut rng = sembrado(3);
    let perm = permutacion_aleatoria(100, &mut rng);
    let mut ordenada = perm.clone();
    ordenada.sort();
    assert_eq!(ordenada, (0..100).collect::<Vec<usize>>());
    assert!(perm != ordenada);
    assert_eq!(permutacion_aleatoria(0, &mut rng), Vec::<usize>::new());
    assert_eq!(permutacion_aleatoria(1, &mut rng), vec![0]);
}

#[test]
fn permutacion_aleatoria_baraja_como_rand() {
    let mut a = sembrado(4);
    let mut b = sembrado(4);
    let perm = permutacion_aleatoria(50, &mut a);
    let mut esperada: Vec<usize> = (0..50).collect();
    b.shuffle(&mut esperada);
    assert_eq!(perm, esperada);
}

#[test]
fn redondeo_de_cocientes() {
    assert_eq!(redondear_cociente(7, 5), 1);
    assert_eq!(redondear_cociente(6, 4), 2);
    assert_eq!(redondear_cociente(5, 2), 3);
    assert_eq!(redondear_cociente(1, 3), 0);
    assert_eq!(redondear_cociente(0, 3), 0);
    assert_eq!(redondear_cociente(9, 1), 9);
    assert_eq!(redondear_cociente(usize::MAX, 1), usize::MAX);
}

#[test]
fn tramos_de_una_clase_de_siete_en_cinco_pliegues() {
    let tramos: Vec<(usize, usize)> = (0..5).map(|i| tramo_de(7, 5, i)).collect();
    assert_eq!(tramos, vec![(0, 1), (1, 2), (3, 1), (4, 2), (6, 1)]);
    let de_diez: Vec<(usize, usize)> = (0..5).map(|i| tramo_de(10, 5, i)).collect();
    assert_eq!(de_diez, vec![(0, 2), (2, 2), (4, 2), (6, 2), (8, 2)]);
    assert_eq!(tramo_de(3, 1, 0), (0, 3));
    assert_eq!(tramo_de(0, 5, 4), (0, 0));
}

#[test]
fn particion_reparte_cada_clase_por_tramos() {
    let datos = vec![
        punto(&[0], 1),
        punto(&[1], 0),
        punto(&[2], 1),
        punto(&[3], 1),
        punto(&[4], 0),
        punto(&[5], 1),
        punto(&[6], 0),
    ];
    let perm = [6, 5, 4, 3, 2, 1, 0];
    assert_eq!(contar_clases(&datos, &perm), 2);
    assert_eq!(datos_de_clase(&datos, &perm, 0), vec![6, 4, 1]);
    assert_eq!(datos_de_clase(&datos, &perm, 1), vec![5, 3, 2, 0]);
    assert_eq!(datos_de_clase(&datos, &perm, 2), Vec::<usize>::new());
    // Class 0 gives 2 and 1 records; class 1 gives 2 and 2.
    assert_eq!(particionar(&datos, &perm, 2), vec![vec![6, 4, 5, 3], vec![1, 2, 0]]);
    assert_eq!(particionar(&datos, &perm, 1), vec![vec![6, 4, 1, 5, 3, 2, 0]]);
    assert_eq!(particionar(&datos, &[], 3), vec![Vec::<usize>::new(); 3]);
}

#[test]
fn particion_no_pierde_ni_repite_datos() {
    let mut rng = sembrado(5);
    let mut datos = Vec::new();
    for i in 0..23u64 {
        datos.push(punto(&[i], (i % 3) as i32));
    }
    for n_fold in [1usize, 2, 5, 7, 30] {
        let perm = permutacion_aleatoria(23, &mut rng);
        let particion = particionar(&datos, &perm, n_fold);
        assert_eq!(particion.len(), n_fold);
        let mut todos: Vec<usize> = particion.iter().flatten().cloned().collect();
        todos.sort();
        assert_eq!(todos, (0..23).collect::<Vec<usize>>());
        for clase in 0..3 {
            let por_pliegue: Vec<usize> = particion
                .iter()
                .map(|f| f.iter().filter(|k| datos[**k].id_categoria() == clase).count())
                .collect();
            let min = *por_pliegue.iter().min().unwrap();
            let max = *por_pliegue.iter().max().unwrap();
            assert!(max - min <= 1);
        }
    }
}

#[test]
fn conjuntos_de_entrenamiento_y_prueba() {
    let datos = vec![punto(&[0], 0), punto(&[1], 1), punto(&[2], 0), punto(&[3], 1)];
    let particion = vec![vec![3, 0], vec![], vec![1], vec![2]];
    assert_eq!(indices_entrenamiento(&particion, 0), vec![1, 2]);
    assert_eq!(indices_entrenamiento(&particion, 2), vec![3, 0, 2]);
    assert_eq!(indices_entrenamiento(&particion, 9), vec![3, 0, 1, 2]);
    let copia = conjunto(&datos, &[3, 0]);
    assert_eq!(copia.len(), 2);
    assert!(copia[0] == datos[3] && copia[1] == datos[0]);
    assert!(tiene_clases_no_negativas(&datos));
    assert!(!tiene_clases_no_negativas(&[punto(&[0], -1)]));
}

#[test]
fn medir_sobre_el_conjunto_de_prueba() {
    let entrenamiento = veinte();
    let test = vec![punto(&[0, 0, 0], 0), punto(&[UNO, UNO, UNO], 1), punto(&[0, 0, 0], 1)];
    let m = medir(&entrenamiento, &test, &[UNO, UNO, 100_000]);
    assert_eq!(
        m,
        Estadisticos { tasa_clas: 66_666_666, tasa_red: 33_333_333, agregado: 49_999_999 }
    );
}

#[test]
fn medias_aritmeticas() {
    let a = Estadisticos { tasa_clas: 100, tasa_red: 0, agregado: 50 };
    let b = Estadisticos { tasa_clas: 50, tasa_red: 25, agregado: 37 };
    let c = Estadisticos { tasa_clas: 1, tasa_red: 2, agregado: 3 };
    assert_eq!(medias(&[a, b, c]), Estadisticos { tasa_clas: 50, tasa_red: 9, agregado: 30 });
    assert_eq!(medias(&[a]), a);
    assert_eq!(medias(&[]), Estadisticos { tasa_clas: 0, tasa_red: 0, agregado: 0 });
    let grande = Estadisticos { tasa_clas: u64::MAX, tasa_red: u64::MAX, agregado: u64::MAX };
    assert_eq!(medias(&[grande, grande]), grande);
}

#[test]
fn algoritmos_que_parten_de_relief() {
    assert!(usa_relief(Algoritmo::Relief));
    assert!(usa_relief(Algoritmo::ReliefTruncado));
    assert!(usa_relief(Algoritmo::ReliefAfinidad));
    assert!(usa_relief(Algoritmo::IlsAfinidadRelief));
    assert!(!usa_relief(Algoritmo::UnoNn));
    assert!(!usa_relief(Algoritmo::AggBlx));
    let una_clase = vec![punto(&[0], 0), punto(&[1], 0)];
    assert!(es_aplicable(Algoritmo::UnoNn, &una_clase));
    assert!(!es_aplicable(Algoritmo::Relief, &una_clase));
    assert!(!es_aplicable(Algoritmo::UnoNn, &[]));
    assert!(es_aplicable(Algoritmo::Relief, &veinte()));
}

#[test]
fn ejecutar_cada_algoritmo() {
    let datos = veinte();
    let mut rng = sembrado(6);
    assert_eq!(ejecutar(Algoritmo::UnoNn, &datos, &mut rng, &RuidoValidacion), vec![UNO; 3]);
    assert_eq!(ejecutar(Algoritmo::Relief, &datos, &mut rng, &RuidoValidacion), relief(&datos));
    for algoritmo in [
        Algoritmo::BusquedaLocal,
        Algoritmo::AggBlx,
        Algoritmo::AgeCa,
        Algoritmo::AmC,
        Algoritmo::ReliefTruncado,
        Algoritmo::ReliefAfinidad,
        Algoritmo::BusquedaLocalOrdenMut2,
        Algoritmo::Es,
        Algoritmo::Ils,
        Algoritmo::DeRand1,
        Algoritmo::DeCtb1,
        Algoritmo::EsProp,
        Algoritmo::IlsAfinidadRelief,
    ] {
        let w = ejecutar(algoritmo, &datos, &mut rng, &RuidoValidacion);
        assert_eq!(w.len(), 3);
        assert!(w.iter().all(|x| *x <= UNO));
        assert!(evaluar(&datos, &w) >= 50_000_000);
    }
}

#[test]
fn validacion_cruzada_del_vecino_mas_cercano() {
    let datos = veinte();
    let v = ffcv(Algoritmo::UnoNn, &datos, &[1, 2, 3], &RuidoValidacion).unwrap();
    assert_eq!(v.pliegues.len(), N_FOLD);
    for e in &v.pliegues {
        assert_eq!(*e, Estadisticos { tasa_clas: CIEN, tasa_red: 0, agregado: 50_000_000 });
    }
    assert_eq!(v.medias, Estadisticos { tasa_clas: CIEN, tasa_red: 0, agregado: 50_000_000 });
    assert_eq!(v.medias, medias(&v.pliegues));
}

#[test]
fn validacion_cruzada_repetible_con_la_misma_semilla() {
    let datos = veinte();
    let semilla = semilla_desde_bytes(b"una semilla cualquiera");
    let a = ffcv(Algoritmo::BusquedaLocal, &datos, &semilla, &RuidoValidacion).unwrap();
    let b = ffcv(Algoritmo::BusquedaLocal, &datos, &semilla, &RuidoValidacion).unwrap();
    assert_eq!(a.pliegues, b.pliegues);
    assert_eq!(a.medias, b.medias);
    assert_eq!(a.medias, medias(&a.pliegues));
    for e in &a.pliegues {
        assert_eq!(e.agregado, (e.tasa_clas + e.tasa_red) / 2);
        assert!(e.tasa_clas <= CIEN && e.tasa_red <= CIEN);
    }
}

#[test]
fn validacion_cruzada_rechaza_muestras_invalidas() {
    let r = &RuidoValidacion;
    assert_eq!(ffcv(Algoritmo::UnoNn, &[], &[1], r).err(), Some(ErrorValidacion::MuestraInvalida));
    assert_eq!(
        ffcv(Algoritmo::UnoNn, &[punto(&[0], 0), punto(&[0, 1], 0)], &[1], r).err(),
        Some(ErrorValidacion::MuestraInvalida)
    );
    assert_eq!(
        ffcv(Algoritmo::UnoNn, &[punto(&[0], -3), punto(&[1], 0)], &[1], r).err(),
        Some(ErrorValidacion::MuestraInvalida)
    );
    assert_eq!(
        ffcv(Algoritmo::UnoNn, &[punto(&[UNO + 1], 0)], &[1], r).err(),
        Some(ErrorValidacion::MuestraInvalida)
    );
}

#[test]
fn validacion_cruzada_sin_entrenamiento_aplicable() {
    let r = &RuidoValidacion;
    // One record: it falls to the fourth fold, whose training sample is then empty.
    assert_eq!(
        ffcv(Algoritmo::UnoNn, &[punto(&[0], 0)], &[1], r).err(),
        Some(ErrorValidacion::AlgoritmoNoAplicable(3))
    );
    // One class only: no record has an enemy.
    let una_clase: Vec<Dato> = (0..10u64).map(|i| punto(&[i], 0)).collect();
    assert_eq!(
        ffcv(Algoritmo::Relief, &una_clase, &[1], r).err(),
        Some(ErrorValidacion::AlgoritmoNoAplicable(0))
    );
    assert!(ffcv(Algoritmo::UnoNn, &una_clase, &[1], r).is_ok());
}

#[test]
fn validar_un_pliegue() {
    let datos = veinte();
    let mut rng = sembrado(7);
    let perm = permutacion_aleatoria(20, &mut rng);
    let particion = particionar(&datos, &perm, N_FOLD);
    for i in 0..N_FOLD {
        assert_eq!(particion[i].len(), 4);
        let e = validar_pliegue(Algoritmo::Relief, &datos, &particion, i, &mut rng, &RuidoValidacion)
            .unwrap();
        assert_eq!(e.tasa_clas, CIEN);
        assert_eq!(e.tasa_red, 33_333_333);
    }
}

#[test]
fn permutaciones_validas() {
    let datos = vec![punto(&[0], 0), punto(&[1], 1), punto(&[2], -1)];
    assert!(es_permutacion_valida(&datos, &[1, 0, 0]));
    assert!(es_permutacion_valida(&datos, &[]));
    assert!(!es_permutacion_valida(&datos, &[0, 3]));
    assert!(!es_permutacion_valida(&datos, &[0, 2]));
}

#[test]
fn algoritmos_que_siempre_normalizan() {
    let datos = veinte();
    let mut rng = sembrado(8);
    for algoritmo in [
        Algoritmo::UnoNn,
        Algoritmo::Relief,
        Algoritmo::ReliefTruncado,
        Algoritmo::ReliefAfinidad,
        Algoritmo::IlsAfinidad,
        Algoritmo::IlsAfinidadRelief,
    ] {
        let w = ejecutar(algoritmo, &datos, &mut rng, &RuidoValidacion);
        assert_eq!(*w.iter().max().unwrap(), UNO);
    }
}

#[test]
fn validacion_cruzada_con_una_clase_repetida_sale_bien() {
    let r = &RuidoValidacion;
    let dos = [punto(&[0], 0), punto(&[UNO], 0)];
    for semilla in 0..6u64 {
        let v = ffcv(Algoritmo::UnoNn, &dos, &[semilla], r).unwrap();
        assert_eq!(v.pliegues.len(), N_FOLD);
        assert_eq!(v.medias, medias(&v.pliegues));
    }
    let tres = [punto(&[0], 0), punto(&[UNO], 1), punto(&[5], 1)];
    assert!(ffcv(Algoritmo::BusquedaLocal, &tres, &[3], r).is_ok());
    // Every class has one record: all fall to the fourth fold.
    let sueltos = [punto(&[0], 0), punto(&[UNO], 1), punto(&[5], 2)];
    assert_eq!(
        ffcv(Algoritmo::UnoNn, &sueltos, &[3], r).err(),
        Some(ErrorValidacion::AlgoritmoNoAplicable(3))
    );
}

#[test]
fn cada_pliegue_mide_los_pesos_del_algoritmo() {
    let datos = veinte();
    let semilla: &[u64] = &[11, 12];
    let v = ffcv(Algoritmo::Relief, &datos, semilla, &RuidoValidacion).unwrap();
    let mut rng = Isaac64Rng::from_seed(semilla);
    let perm = permutacion_aleatoria(datos.len(), &mut rng);
    let particion = particionar(&datos, &perm, N_FOLD);
    for i in 0..N_FOLD {
        let entrenamiento = conjunto(&datos, &indices_entrenamiento(&particion, i));
        let test = conjunto(&datos, &particion[i]);
        let w = relief(&entrenamiento);
        assert_eq!(v.pliegues[i], medir(&entrenamiento, &test, &w));
    }
}
