use aprendizaje_pesos::evaluacion_pesos::{
    es_evaluable, es_muestra_valida, evaluar, evaluar_agregado, evaluar_clasificacion,
    evaluar_simplicidad, get_datos_de_clase, get_distribucion_clases, son_pesos_validos, Modo,
};
use aprendizaje_pesos::fijo::{esta_a_escala, porcentaje, recortar_suma, CIEN, UMBRAL, UNO};
use aprendizaje_pesos::knn::{
    distancia_cuadrado, distancia_cuadrado_c, distancia_cuadrado_f, distancia_cuadrado_vc,
    distancia_cuadrado_vf, es_muestra_medible, get_amigo_mas_cercano, get_enemigo_mas_cercano,
    get_mas_cercano, get_mas_cercano_distinto, tiene_amigo, tiene_enemigo, Dato,
};

fn dato(reales: &[u64], clase: i32) -> Dato {
    Dato::new(reales, &[], clase)
}

/// Two clusters of five records with four attributes, far apart.
fn dos_grupos() -> Vec<Dato> {
    let mut v = Vec::new();
    for i in 0..5u64 {
        let d = 10_000 * i;
        v.push(dato(&[100_000 + d, 120_000 + d, 90_000 + d, 110_000 + d], 0));
    }
    for i in 0..5u64 {
        let d = 10_000 * i;
        v.push(dato(&[900_000 - d, 880_000 - d, 910_000 - d, 890_000 - d], 1));
    }
    v
}

#[test]
fn constantes_de_la_escala() {
    assert_eq!(UNO, 1_000_000);
    assert_eq!(UMBRAL, UNO / 5);
    assert_eq!(CIEN, 100 * UNO);
}

#[test]
fn recortar_suma_confina_al_intervalo() {
    assert_eq!(recortar_suma(500_000, 200_000), 700_000);
    assert_eq!(recortar_suma(500_000, -700_000), 0);
    assert_eq!(recortar_suma(500_000, 700_000), UNO);
    assert_eq!(recortar_suma(0, i64::MIN), 0);
    assert_eq!(recortar_suma(u64::MAX, i64::MAX), UNO);
}

#[test]
fn porcentaje_redondea_hacia_abajo() {
    assert_eq!(porcentaje(1, 3), 33_333_333);
    assert_eq!(porcentaje(3, 4), 75_000_000);
    assert_eq!(porcentaje(0, 0), 0);
    assert_eq!(porcentaje(7, 7), CIEN);
}

#[test]
fn dato_guarda_sus_atributos() {
    let d = Dato::new(&[1, 2, 3], &["rojo".to_string()], 4);
    assert_eq!(d.num_atributos(), 4);
    assert_eq!(d.num_reales(), 3);
    assert_eq!(d.num_categoricos(), 1);
    assert_eq!(d.id_categoria(), 4);
    assert_eq!(d.atributo(1), 2);
    assert!(d.es_bien_formado());
    assert!(d.clonar() == d);
    assert!(!dato(&[UNO + 1], 0).es_bien_formado());
}

#[test]
fn distancia_entre_valores() {
    assert_eq!(distancia_cuadrado_f(200_000, 500_000), 90_000_000_000);
    assert_eq!(distancia_cuadrado_f(500_000, 200_000), 90_000_000_000);
    assert_eq!(distancia_cuadrado_f(0, u64::MAX), (u64::MAX as u128) * (u64::MAX as u128));
    assert_eq!(distancia_cuadrado_c(&"a".to_string(), &"a".to_string()), 0);
    assert_eq!(distancia_cuadrado_c(&"a".to_string(), &"b".to_string()), 1_000_000_000_000);
}

#[test]
fn distancia_ponderada_de_reales() {
    let a = [0, 500_000];
    let b = [1_000_000, 250_000];
    assert_eq!(
        distancia_cuadrado_vf(&a, &b, &[1_000_000, 400_000]),
        1_025_000_000_000_000_000
    );
}

#[test]
fn peso_bajo_el_umbral_no_cuenta() {
    let a = [0, 500_000];
    let b = [1_000_000, 250_000];
    assert_eq!(
        distancia_cuadrado_vf(&a, &b, &[1_000_000, 199_999]),
        1_000_000_000_000_000_000
    );
    assert_eq!(
        distancia_cuadrado_vf(&a, &b, &[1_000_000, 200_000]),
        1_012_500_000_000_000_000
    );
}

#[test]
fn distancia_de_hamming_ponderada() {
    let a = ["x".to_string(), "y".to_string(), "z".to_string()];
    let b = ["x".to_string(), "w".to_string(), "v".to_string()];
    assert_eq!(
        distancia_cuadrado_vc(&a, &b, &[UNO, 500_000, 100_000]),
        500_000_000_000_000_000
    );
}

#[test]
fn distancia_entre_datos_mixtos() {
    let a = Dato::new(&[0], &["x".to_string()], 0);
    let b = Dato::new(&[1_000_000], &["y".to_string()], 1);
    assert_eq!(
        distancia_cuadrado(&a, &b, &[500_000, 250_000]),
        750_000_000_000_000_000
    );
}

#[test]
fn el_mas_cercano_es_el_propio_dato_si_esta() {
    let vm = vec![dato(&[0], 7), dato(&[400_000], 8), dato(&[1_000_000], 9)];
    assert_eq!(get_mas_cercano(&vm, &vm[1], &[UNO]), 8);
    assert_eq!(get_mas_cercano(&vm, &dato(&[900_000], 0), &[UNO]), 9);
}

#[test]
fn empate_lo_gana_el_primero() {
    let vm = vec![dato(&[400_000], 1), dato(&[600_000], 2)];
    assert_eq!(get_mas_cercano(&vm, &dato(&[500_000], 0), &[UNO]), 1);
    let al_reves = vec![dato(&[600_000], 2), dato(&[400_000], 1)];
    assert_eq!(get_mas_cercano(&al_reves, &dato(&[500_000], 0), &[UNO]), 2);
}

#[test]
fn el_mas_cercano_distinto_excluye_la_posicion() {
    let vm = vec![dato(&[0], 7), dato(&[400_000], 8), dato(&[1_000_000], 9)];
    assert_eq!(get_mas_cercano_distinto(&vm, 1, &[UNO]), 7);
    assert_eq!(get_mas_cercano_distinto(&vm, 2, &[UNO]), 8);
    let repetido = vec![dato(&[5], 1), dato(&[5], 2)];
    assert_eq!(get_mas_cercano_distinto(&repetido, 0, &[UNO]), 2);
}

#[test]
fn muestra_de_un_dato_devuelve_su_clase() {
    let vm = vec![dato(&[0], 3)];
    assert_eq!(get_mas_cercano_distinto(&vm, 0, &[UNO]), 3);
}

#[test]
fn amigo_y_enemigo_mas_cercanos() {
    let vm = vec![
        dato(&[0], 0),
        dato(&[100_000], 1),
        dato(&[300_000], 0),
        dato(&[900_000], 0),
        dato(&[1_000_000], 1),
    ];
    assert!(tiene_amigo(&vm, 0));
    assert!(tiene_enemigo(&vm, &vm[0]));
    assert_eq!(get_amigo_mas_cercano(&vm, 0, &[UNO]).atributo(0), 300_000);
    assert_eq!(get_enemigo_mas_cercano(&vm, &vm[0], &[UNO]).atributo(0), 100_000);
    assert_eq!(get_amigo_mas_cercano(&vm, 4, &[UNO]).atributo(0), 100_000);
    assert_eq!(get_enemigo_mas_cercano(&vm, &vm[4], &[UNO]).atributo(0), 900_000);
}

#[test]
fn sin_amigo_o_sin_enemigo() {
    let vm = vec![dato(&[0], 0), dato(&[100_000], 1), dato(&[300_000], 0)];
    assert!(!tiene_amigo(&vm, 1));
    assert!(tiene_amigo(&vm, 2));
    let una_clase = vec![dato(&[0], 0), dato(&[100_000], 0)];
    assert!(!tiene_enemigo(&una_clase, &una_clase[0]));
    assert!(tiene_enemigo(&una_clase, &dato(&[0], 5)));
}

#[test]
fn simplicidad_un_peso_relevante_y_tres_podados() {
    assert_eq!(evaluar_simplicidad(&[1_000_000, 100_000, 100_000, 100_000]), 75_000_000);
}

#[test]
fn simplicidad_todo_unos_y_todo_ceros() {
    assert_eq!(evaluar_simplicidad(&[UNO; 6]), 0);
    assert_eq!(evaluar_simplicidad(&[0; 6]), CIEN);
    assert_eq!(evaluar_simplicidad(&[]), 0);
}

#[test]
fn simplicidad_el_umbral_no_esta_podado() {
    assert_eq!(evaluar_simplicidad(&[200_000, 199_999]), 50_000_000);
}

#[test]
fn agregado_es_la_media_de_las_tasas() {
    assert_eq!(evaluar_agregado(CIEN, 0), 50_000_000);
    assert_eq!(evaluar_agregado(75_000_000, 25_000_000), 50_000_000);
    assert_eq!(evaluar_agregado(1, 2), 1);
    assert_eq!(evaluar_agregado(u64::MAX, u64::MAX), u64::MAX);
}

#[test]
fn dos_grupos_separados_se_clasifican_del_todo() {
    let datos = dos_grupos();
    assert!(es_muestra_valida(&datos));
    let w = [UNO; 4];
    assert_eq!(evaluar_clasificacion(&datos, &datos, &w, Modo::DejarUnoFuera), CIEN);
    assert_eq!(evaluar_simplicidad(&w), 0);
    assert_eq!(evaluar(&datos, &w), 50_000_000);
}

#[test]
fn dejar_uno_fuera_cuenta_los_errores() {
    // The record at 0.45 lies nearest to one of the other class.
    let datos = vec![
        dato(&[0], 0),
        dato(&[100_000], 0),
        dato(&[450_000], 0),
        dato(&[500_000], 1),
        dato(&[600_000], 1),
    ];
    let w = [UNO];
    assert_eq!(evaluar_clasificacion(&datos, &datos, &w, Modo::DejarUnoFuera), 60_000_000);
    assert_eq!(evaluar_clasificacion(&datos, &datos, &w, Modo::Retencion), CIEN);
    assert_eq!(evaluar(&datos, &w), 30_000_000);
}

#[test]
fn retencion_clasifica_contra_el_entrenamiento() {
    let entrenamiento = dos_grupos();
    let test = vec![
        dato(&[0, 0, 0, 0], 0),
        dato(&[UNO, UNO, UNO, UNO], 1),
        dato(&[UNO, UNO, UNO, UNO], 0),
    ];
    assert_eq!(
        evaluar_clasificacion(&entrenamiento, &test, &[UNO; 4], Modo::Retencion),
        66_666_666
    );
    assert_eq!(evaluar_clasificacion(&entrenamiento, &[], &[UNO; 4], Modo::Retencion), 0);
}

#[test]
fn la_tasa_no_depende_del_orden_del_entrenamiento() {
    let entrenamiento = dos_grupos();
    let mut al_reves: Vec<Dato> = Vec::new();
    for d in entrenamiento.iter().rev() {
        al_reves.push(d.clonar());
    }
    let test = vec![
        dato(&[300_000, 200_000, 100_000, 0], 0),
        dato(&[700_000, 800_000, 600_000, 900_000], 1),
        dato(&[600_000, 600_000, 600_000, 600_000], 0),
        dato(&[200_000, 300_000, 900_000, 100_000], 1),
    ];
    let w = [UNO, 700_000, 300_000, 100_000];
    assert_eq!(
        evaluar_clasificacion(&entrenamiento, &test, &w, Modo::Retencion),
        evaluar_clasificacion(&al_reves, &test, &w, Modo::Retencion)
    );
    assert_eq!(evaluar_clasificacion(&entrenamiento, &test, &w, Modo::Retencion), 50_000_000);
}

#[test]
fn pesos_podados_valen_como_ceros() {
    let datos = dos_grupos();
    assert_eq!(
        evaluar(&datos, &[UNO, 150_000, 600_000, 1]),
        evaluar(&datos, &[UNO, 0, 600_000, 0])
    );
}

#[test]
fn muestra_valida_exige_una_forma() {
    assert!(!es_muestra_valida(&[]));
    assert!(!es_muestra_valida(&[dato(&[], 0)]));
    assert!(!es_muestra_valida(&[dato(&[1], 0), dato(&[1, 2], 0)]));
    assert!(!es_muestra_valida(&[dato(&[UNO + 1], 0)]));
    assert!(es_muestra_valida(&[dato(&[1], 0), dato(&[2], 5)]));
}

#[test]
fn distribucion_de_clases() {
    let vm = vec![dato(&[0], 2), dato(&[0], 0), dato(&[0], 2), dato(&[0], 2)];
    assert_eq!(get_distribucion_clases(&vm), vec![1, 0, 3]);
    assert_eq!(get_distribucion_clases(&[]), Vec::<u32>::new());
}

#[test]
fn datos_de_una_clase() {
    let vm = vec![dato(&[1], 2), dato(&[2], 0), dato(&[3], 2)];
    let refs: Vec<&Dato> = vec![&vm[0], &vm[1], &vm[2]];
    let de_dos = get_datos_de_clase(&refs, 2);
    assert_eq!(de_dos.len(), 2);
    assert_eq!(de_dos[0].atributo(0), 1);
    assert_eq!(de_dos[1].atributo(0), 3);
    assert_eq!(get_datos_de_clase(&refs, 1).len(), 0);
}

#[test]
fn pesos_a_escala_y_validos_para_la_muestra() {
    assert!(esta_a_escala(&[0, UNO, 5]));
    assert!(!esta_a_escala(&[0, UNO + 1]));
    assert!(esta_a_escala(&[]));
    let datos = dos_grupos();
    assert!(son_pesos_validos(&datos, &[UNO, 0, 1, 2]));
    assert!(!son_pesos_validos(&datos, &[UNO, 0, 1]));
    assert!(!son_pesos_validos(&datos, &[UNO, 0, 1, UNO + 1]));
}

#[test]
fn muestras_que_se_pueden_medir_y_evaluar() {
    let datos = dos_grupos();
    let w = [UNO; 4];
    assert!(es_muestra_medible(&datos, &datos[0], &w));
    assert!(es_muestra_medible(&[], &dato(&[UNO + 1], 0), &[]));
    assert!(!es_muestra_medible(&datos, &dato(&[0, 0, 0], 0), &w));
    assert!(!es_muestra_medible(&datos, &datos[0], &[UNO; 3]));
    assert!(!es_muestra_medible(&datos, &datos[0], &[UNO, UNO, UNO, UNO + 1]));
    assert!(!es_muestra_medible(&[dato(&[UNO + 1, 0, 0, 0], 0)], &datos[0], &w));
    assert!(es_evaluable(&datos, &datos, &w));
    assert!(es_evaluable(&datos, &[], &[UNO + 7]));
    assert!(!es_evaluable(&[], &datos, &w));
    assert!(!es_evaluable(&datos, &[dato(&[0], 0)], &w));
    assert!(!es_evaluable(&datos, &datos, &[UNO; 5]));
    assert!(!es_evaluable(&[dato(&[0], 0)], &datos, &w));
}
