//! Records and the weighted nearest-neighbour classifier.

use vstd::prelude::*;
use crate::fijo::{UNO, UMBRAL, TERMINO_MAXIMO, a_escala, esta_a_escala};

verus! {

/// One labelled record: real attributes scaled to `[0, UNO]`, categorical
/// attributes, and the identifier of its class.
#[derive(Clone, Debug, PartialEq, Eq, Hash)]
pub struct Dato {
    atributos_f: Vec<u64>,
    atributos_c: Vec<String>,
    id_categoria: i32,
}

/// What a record holds, as mathematical values.
pub ghost struct DatoModelo {
    pub reales: Seq<u64>,
    pub categoricos: Seq<Seq<char>>,
    pub categoria: i32,
}

impl View for Dato {
    type V = DatoModelo;

    closed spec fn view(&self) -> DatoModelo {
        DatoModelo {
            reales: self.atributos_f@,
            categoricos: Seq::new(self.atributos_c@.len(), |i: int| self.atributos_c@[i]@),
            categoria: self.id_categoria,
        }
    }
}

impl DatoModelo {
    /// Number of attributes, real ones first.
    pub open spec fn aridad(self) -> nat {
        self.reales.len() + self.categoricos.len()
    }

    /// Every real attribute lies in `[0, UNO]`.
    pub open spec fn bien_formado(self) -> bool {
        a_escala(self.reales)
    }

    /// Same number of real and of categorical attributes as `otro`.
    pub open spec fn misma_forma(self, otro: DatoModelo) -> bool {
        self.reales.len() == otro.reales.len() && self.categoricos.len() == otro.categoricos.len()
    }
}

impl Dato {
    /// Builds a record from its attributes and its class.
    pub fn new(af: &[u64], ac: &[String], cat: i32) -> (d: Dato)
        ensures
            d@.reales == af@,
            d@.categoricos == Seq::new(ac@.len(), |i: int| ac@[i]@),
            d@.categoria == cat,
    {
        let mut textos: Vec<String> = Vec::new();
        let mut i: usize = 0;
        while i < ac.len()
            invariant
                i <= ac.len(),
                textos@.len() == i,
                forall|j: int| 0 <= j < i ==> textos@[j]@ == ac@[j]@,
            decreases ac.len() - i,
        {
            textos.push(ac[i].clone());
            i += 1;
        }
        let d = Dato {
            atributos_f: vstd::slice::slice_to_vec(af),
            atributos_c: textos,
            id_categoria: cat,
        };
        assert(d@.categoricos =~= Seq::new(ac@.len(), |i: int| ac@[i]@));
        d
    }

    /// Number of attributes.
    pub fn num_atributos(&self) -> (n: usize)
        requires
            self@.aridad() <= usize::MAX,
        ensures
            n == self@.aridad(),
    {
        self.atributos_f.len() + self.atributos_c.len()
    }

    /// Number of real attributes.
    pub fn num_reales(&self) -> (n: usize)
        ensures
            n == self@.reales.len(),
    {
        self.atributos_f.len()
    }

    /// Number of categorical attributes.
    pub fn num_categoricos(&self) -> (n: usize)
        ensures
            n == self@.categoricos.len(),
    {
        self.atributos_c.len()
    }

    /// Identifier of the record's class.
    pub fn id_categoria(&self) -> (c: i32)
        ensures
            c == self@.categoria,
    {
        self.id_categoria
    }

    /// The real attribute at `indice`.
    pub fn atributo(&self, indice: usize) -> (x: u64)
        requires
            indice < self@.reales.len(),
        ensures
            x == self@.reales[indice as int],
    {
        self.atributos_f[indice]
    }

    /// Whether every real attribute lies in `[0, UNO]`.
    pub fn es_bien_formado(&self) -> (b: bool)
        ensures
            b == self@.bien_formado(),
    {
        let mut i: usize = 0;
        while i < self.atributos_f.len()
            invariant
                i <= self.atributos_f.len(),
                forall|j: int| 0 <= j < i ==> #[trigger] self.atributos_f@[j] <= UNO,
            decreases self.atributos_f.len() - i,
        {
            if self.atributos_f[i] > UNO {
                return false;
            }
            i += 1;
        }
        true
    }

    /// A copy of the record.
    pub fn clonar(&self) -> (d: Dato)
        ensures
            d@ == self@,
    {
        let d = Dato::new(self.atributos_f.as_slice(), self.atributos_c.as_slice(), self.id_categoria);
        assert(d@.categoricos =~= self@.categoricos);
        d
    }
}


/// Contribution of one real attribute to the squared distance: the weight
/// times the squared difference, or nothing when the weight is pruned.
pub open spec fn termino_real(a: u64, b: u64, p: u64) -> nat {
    if p >= UMBRAL {
        (p * ((a - b) * (a - b))) as nat
    } else {
        0
    }
}

/// Contribution of one categorical attribute: the weight where the two
/// values differ (Hamming distance), on the scale of `termino_real`.
pub open spec fn termino_categorico(a: Seq<char>, b: Seq<char>, p: u64) -> nat {
    if p >= UMBRAL && a != b {
        (p * UNO * UNO) as nat
    } else {
        0
    }
}

/// Weighted squared distance over the first `n` real attributes.
pub open spec fn distancia_reales(a: Seq<u64>, b: Seq<u64>, w: Seq<u64>, n: nat) -> nat
    decreases n,
{
    if n == 0 {
        0
    } else {
        distancia_reales(a, b, w, (n - 1) as nat) + termino_real(a[n - 1], b[n - 1], w[n - 1])
    }
}

/// Weighted Hamming distance over the first `n` categorical attributes.
pub open spec fn distancia_categoricos(
    a: Seq<Seq<char>>,
    b: Seq<Seq<char>>,
    w: Seq<u64>,
    n: nat,
) -> nat
    decreases n,
{
    if n == 0 {
        0
    } else {
        distancia_categoricos(a, b, w, (n - 1) as nat) + termino_categorico(
            a[n - 1],
            b[n - 1],
            w[n - 1],
        )
    }
}

/// Weighted squared distance between two records: the weights of the real
/// attributes come first in `w`, those of the categorical ones after them.
pub open spec fn distancia(a: DatoModelo, b: DatoModelo, w: Seq<u64>) -> nat {
    let nf = a.reales.len() as int;
    distancia_reales(a.reales, b.reales, w.subrange(0, nf), a.reales.len())
        + distancia_categoricos(
        a.categoricos,
        b.categoricos,
        w.subrange(nf, w.len() as int),
        a.categoricos.len(),
    )
}

/// Two records and a weight vector that fit together.
pub open spec fn medibles(a: DatoModelo, b: DatoModelo, w: Seq<u64>) -> bool {
    &&& a.bien_formado()
    &&& b.bien_formado()
    &&& a.misma_forma(b)
    &&& a_escala(w)
    &&& w.len() == a.aridad()
}

/// No term exceeds `TERMINO_MAXIMO`, so a distance over `n` attributes is at most `n` times that.
pub proof fn lema_cota_reales(a: Seq<u64>, b: Seq<u64>, w: Seq<u64>, n: nat)
    requires
        a_escala(a),
        a_escala(b),
        a_escala(w),
        n <= a.len(),
        n <= b.len(),
        n <= w.len(),
    ensures
        distancia_reales(a, b, w, n) <= n * TERMINO_MAXIMO,
    decreases n,
{
    if n > 0 {
        lema_cota_reales(a, b, w, (n - 1) as nat);
        lema_cota_termino(a[n - 1], b[n - 1], w[n - 1]);
    }
}

/// One real term is at most `TERMINO_MAXIMO`.
pub proof fn lema_cota_termino(a: u64, b: u64, p: u64)
    requires
        a <= UNO,
        b <= UNO,
        p <= UNO,
    ensures
        termino_real(a, b, p) <= TERMINO_MAXIMO,
        p * ((a - b) * (a - b)) >= 0,
{
    let d = a - b;
    assert(-1_000_000 <= d <= 1_000_000);
    assert(0 <= d * d <= 1_000_000_000_000) by (nonlinear_arith)
        requires
            -1_000_000 <= d <= 1_000_000,
    ;
    assert(0 <= p * (d * d) <= 1_000_000_000_000_000_000) by (nonlinear_arith)
        requires
            0 <= d * d <= 1_000_000_000_000,
            0 <= p <= 1_000_000,
    ;
}

/// The categorical counterpart of `lema_cota_reales`.
pub proof fn lema_cota_categoricos(a: Seq<Seq<char>>, b: Seq<Seq<char>>, w: Seq<u64>, n: nat)
    requires
        a_escala(w),
        n <= w.len(),
    ensures
        distancia_categoricos(a, b, w, n) <= n * TERMINO_MAXIMO,
    decreases n,
{
    if n > 0 {
        lema_cota_categoricos(a, b, w, (n - 1) as nat);
        let p = w[n - 1];
        assert(p * UNO * UNO <= 1_000_000_000_000_000_000) by (nonlinear_arith)
            requires
                0 <= p <= 1_000_000,
        ;
    }
}

/// A distance between records that fit together stays below `u128::MAX`.
pub proof fn lema_cota_distancia(a: DatoModelo, b: DatoModelo, w: Seq<u64>)
    requires
        medibles(a, b, w),
        w.len() <= usize::MAX,
    ensures
        distancia(a, b, w) <= w.len() * TERMINO_MAXIMO,
        distancia(a, b, w) < u128::MAX,
{
    let nf = a.reales.len() as int;
    lema_cota_reales(a.reales, b.reales, w.subrange(0, nf), a.reales.len());
    lema_cota_categoricos(
        a.categoricos,
        b.categoricos,
        w.subrange(nf, w.len() as int),
        a.categoricos.len(),
    );
    assert(a.reales.len() * TERMINO_MAXIMO + a.categoricos.len() * TERMINO_MAXIMO == w.len()
        * TERMINO_MAXIMO) by (nonlinear_arith)
        requires
            w.len() == a.reales.len() + a.categoricos.len(),
    ;
    assert(w.len() * TERMINO_MAXIMO < u128::MAX) by (nonlinear_arith)
        requires
            w.len() <= 0xffff_ffff_ffff_ffff,
            TERMINO_MAXIMO == 1_000_000_000_000_000_000,
            u128::MAX == 0xffff_ffff_ffff_ffff_ffff_ffff_ffff_ffff,
    ;
}

/// Squared distance between two categorical values: zero when equal, one otherwise.
pub fn distancia_cuadrado_c(a: &String, b: &String) -> (d: u128)
    ensures
        d == (if a@ == b@ { 0 } else { UNO * UNO }),
{
    assert(UNO * UNO == 1_000_000_000_000) by (nonlinear_arith)
        requires
            UNO == 1_000_000,
    ;
    if a.eq(b) {
        0
    } else {
        1_000_000_000_000
    }
}

/// Squared difference of two real values.
pub fn distancia_cuadrado_f(a: u64, b: u64) -> (d: u128)
    ensures
        d == (a - b) * (a - b),
{
    let dif: u128 = if a >= b {
        (a - b) as u128
    } else {
        (b - a) as u128
    };
    assert(dif * dif == (a - b) * (a - b)) by (nonlinear_arith)
        requires
            dif == a - b || dif == b - a,
    ;
    assert(dif * dif <= u128::MAX) by (nonlinear_arith)
        requires
            0 <= dif <= 0xffff_ffff_ffff_ffff,
    ;
    dif * dif
}

/// Weighted Hamming distance between two vectors of categorical values.
pub fn distancia_cuadrado_vc(a: &[String], b: &[String], w: &[u64]) -> (d: u128)
    requires
        a@.len() == b@.len(),
        a@.len() == w@.len(),
        a_escala(w@),
    ensures
        d == distancia_categoricos(
            Seq::new(a@.len(), |i: int| a@[i]@),
            Seq::new(b@.len(), |i: int| b@[i]@),
            w@,
            a@.len(),
        ),
{
    let ghost sa = Seq::new(a@.len(), |i: int| a@[i]@);
    let ghost sb = Seq::new(b@.len(), |i: int| b@[i]@);
    let mut d: u128 = 0;
    let mut i: usize = 0;
    while i < a.len()
        invariant
            i <= a@.len(),
            a@.len() == b@.len(),
            a@.len() == w@.len(),
            a_escala(w@),
            sa == Seq::new(a@.len(), |i: int| a@[i]@),
            sb == Seq::new(b@.len(), |i: int| b@[i]@),
            d == distancia_categoricos(sa, sb, w@, i as nat),
            d <= i * TERMINO_MAXIMO,
        decreases a@.len() - i,
    {
        let p: u64 = w[i];
        proof {
            lema_cota_categoricos(sa, sb, w@, (i + 1) as nat);
            assert((i + 1) * TERMINO_MAXIMO < u128::MAX) by (nonlinear_arith)
                requires
                    i + 1 <= 0xffff_ffff_ffff_ffff,
                    TERMINO_MAXIMO == 1_000_000_000_000_000_000,
                    u128::MAX == 0xffff_ffff_ffff_ffff_ffff_ffff_ffff_ffff,
            ;
            assert(p * UNO * UNO <= 1_000_000_000_000_000_000) by (nonlinear_arith)
                requires
                    0 <= p <= 1_000_000,
            ;
            assert(p * (UNO * UNO) == p * UNO * UNO) by (nonlinear_arith);
            assert(p * 0 == 0);
            assert(sa[i as int] == a@[i as int]@ && sb[i as int] == b@[i as int]@);
        }
        if p >= UMBRAL {
            let t: u128 = distancia_cuadrado_c(&a[i], &b[i]);
            d = d + p as u128 * t;
        }
        assert(d == distancia_categoricos(sa, sb, w@, (i + 1) as nat));
        i += 1;
    }
    d
}

/// Weighted squared Euclidean distance between two vectors of real values.
pub fn distancia_cuadrado_vf(a: &[u64], b: &[u64], w: &[u64]) -> (d: u128)
    requires
        a@.len() == b@.len(),
        a@.len() == w@.len(),
        a_escala(a@),
        a_escala(b@),
        a_escala(w@),
    ensures
        d == distancia_reales(a@, b@, w@, a@.len()),
{
    let mut d: u128 = 0;
    let mut i: usize = 0;
    while i < a.len()
        invariant
            i <= a@.len(),
            a@.len() == b@.len(),
            a@.len() == w@.len(),
            a_escala(a@),
            a_escala(b@),
            a_escala(w@),
            d == distancia_reales(a@, b@, w@, i as nat),
            d <= i * TERMINO_MAXIMO,
        decreases a@.len() - i,
    {
        let p: u64 = w[i];
        proof {
            lema_cota_reales(a@, b@, w@, (i + 1) as nat);
            lema_cota_termino(a@[i as int], b@[i as int], p);
            assert((i + 1) * TERMINO_MAXIMO < u128::MAX) by (nonlinear_arith)
                requires
                    i + 1 <= 0xffff_ffff_ffff_ffff,
                    TERMINO_MAXIMO == 1_000_000_000_000_000_000,
                    u128::MAX == 0xffff_ffff_ffff_ffff_ffff_ffff_ffff_ffff,
            ;
        }
        if p >= UMBRAL {
            let t: u128 = distancia_cuadrado_f(a[i], b[i]);
            d = d + p as u128 * t;
        }
        assert(d == distancia_reales(a@, b@, w@, (i + 1) as nat));
        i += 1;
    }
    d
}

/// Weighted squared distance between the attributes of two records.
pub fn distancia_cuadrado(a: &Dato, b: &Dato, w: &[u64]) -> (d: u128)
    requires
        medibles(a@, b@, w@),
        w@.len() <= usize::MAX,
    ensures
        d == distancia(a@, b@, w@),
        d < u128::MAX,
{
    let nf: usize = a.atributos_f.len();
    let wf = vstd::slice::slice_subrange(w, 0, nf);
    let wc = vstd::slice::slice_subrange(w, nf, w.len());
    proof {
        lema_cota_distancia(a@, b@, w@);
        assert(a@.categoricos =~= Seq::new(a.atributos_c@.len(), |i: int| a.atributos_c@[i]@));
        assert(b@.categoricos =~= Seq::new(b.atributos_c@.len(), |i: int| b.atributos_c@[i]@));
    }
    let df: u128 = distancia_cuadrado_vf(a.atributos_f.as_slice(), b.atributos_f.as_slice(), wf);
    let dc: u128 = distancia_cuadrado_vc(a.atributos_c.as_slice(), b.atributos_c.as_slice(), wc);
    df + dc
}


/// Which records of a sample a query may be matched with.
#[derive(Clone, Copy, Debug, PartialEq, Eq, Structural)]
pub enum Criterio {
    /// Every record.
    Cualquiera,
    /// Records of the query's class: its friends.
    MismaClase,
    /// Records of another class: its enemies.
    OtraClase,
}

/// The key of a record that may not be matched: larger than any distance.
pub open spec fn infinito() -> nat {
    u128::MAX as nat
}

/// Whether record `j` of `vm` may be matched with the query `d`:
/// it is not the excluded position and its class meets the criterion.
pub open spec fn admisible(
    vm: Seq<Dato>,
    d: DatoModelo,
    criterio: Criterio,
    excluido: Option<usize>,
    j: int,
) -> bool {
    &&& excluido != Some(j as usize)
    &&& criterio == Criterio::MismaClase ==> vm[j]@.categoria == d.categoria
    &&& criterio == Criterio::OtraClase ==> vm[j]@.categoria != d.categoria
}

/// The key by which record `j` is ranked: its distance to the query, or
/// `infinito()` when it may not be matched.
pub open spec fn clave(
    vm: Seq<Dato>,
    d: DatoModelo,
    w: Seq<u64>,
    criterio: Criterio,
    excluido: Option<usize>,
    j: int,
) -> nat {
    if admisible(vm, d, criterio, excluido, j) {
        distancia(vm[j]@, d, w)
    } else {
        infinito()
    }
}

/// Position of the first record with the least key among the first `n`.
pub open spec fn primer_minimo(
    vm: Seq<Dato>,
    d: DatoModelo,
    w: Seq<u64>,
    criterio: Criterio,
    excluido: Option<usize>,
    n: nat,
) -> int
    decreases n,
{
    if n <= 1 {
        0
    } else {
        let m = primer_minimo(vm, d, w, criterio, excluido, (n - 1) as nat);
        if clave(vm, d, w, criterio, excluido, n - 1) < clave(vm, d, w, criterio, excluido, m) {
            n - 1
        } else {
            m
        }
    }
}

/// `primer_minimo` is a position whose key no other key undercuts, and the
/// first such position.
pub proof fn lema_primer_minimo(
    vm: Seq<Dato>,
    d: DatoModelo,
    w: Seq<u64>,
    criterio: Criterio,
    excluido: Option<usize>,
    n: nat,
)
    requires
        n >= 1,
    ensures
        0 <= primer_minimo(vm, d, w, criterio, excluido, n) < n,
        forall|j: int|
            0 <= j < n ==> clave(
                vm,
                d,
                w,
                criterio,
                excluido,
                primer_minimo(vm, d, w, criterio, excluido, n),
            )
                <= #[trigger] clave(vm, d, w, criterio, excluido, j),
        forall|j: int|
            0 <= j < primer_minimo(vm, d, w, criterio, excluido, n) ==> clave(
                vm,
                d,
                w,
                criterio,
                excluido,
                primer_minimo(vm, d, w, criterio, excluido, n),
            ) < #[trigger] clave(vm, d, w, criterio, excluido, j),
    decreases n,
{
    if n > 1 {
        lema_primer_minimo(vm, d, w, criterio, excluido, (n - 1) as nat);
    }
}

/// A sample and a query that fit a weight vector.
pub open spec fn muestra_medible(vm: Seq<Dato>, d: DatoModelo, w: Seq<u64>) -> bool {
    &&& w.len() <= usize::MAX
    &&& forall|j: int| 0 <= j < vm.len() ==> medibles(#[trigger] vm[j]@, d, w)
}

/// Decides `muestra_medible`.
pub fn es_muestra_medible(vm: &[Dato], d: &Dato, w: &[u64]) -> (b: bool)
    ensures
        b == muestra_medible(vm@, d@, w@),
{
    let n_pesos: usize = w.len();
    if vm.len() == 0 {
        return true;
    }
    let nf: usize = d.atributos_f.len();
    let nc: usize = d.atributos_c.len();
    if !d.es_bien_formado() || !esta_a_escala(w) || nf > usize::MAX - nc || n_pesos != nf + nc {
        assert(!medibles(vm@[0]@, d@, w@));
        return false;
    }
    let mut j: usize = 0;
    while j < vm.len()
        invariant
            j <= vm@.len(),
            d@.bien_formado(),
            a_escala(w@),
            w@.len() == d@.aridad(),
            nf == d@.reales.len(),
            nc == d@.categoricos.len(),
            forall|k: int| 0 <= k < j ==> medibles(#[trigger] vm@[k]@, d@, w@),
        decreases vm@.len() - j,
    {
        let x = &vm[j];
        if !x.es_bien_formado() || x.atributos_f.len() != nf || x.atributos_c.len() != nc {
            assert(!medibles(vm@[j as int]@, d@, w@));
            return false;
        }
        j += 1;
    }
    true
}

/// Where some record may be matched, the one found may be matched too.
pub proof fn lema_minimo_admisible(
    vm: Seq<Dato>,
    d: DatoModelo,
    w: Seq<u64>,
    criterio: Criterio,
    excluido: Option<usize>,
    k: int,
)
    requires
        muestra_medible(vm, d, w),
        0 <= k < vm.len(),
        admisible(vm, d, criterio, excluido, k),
    ensures
        admisible(vm, d, criterio, excluido, primer_minimo(vm, d, w, criterio, excluido, vm.len())),
{
    lema_primer_minimo(vm, d, w, criterio, excluido, vm.len());
    lema_cota_distancia(vm[k]@, d, w);
    let m = primer_minimo(vm, d, w, criterio, excluido, vm.len());
    assert(clave(vm, d, w, criterio, excluido, m) <= clave(vm, d, w, criterio, excluido, k));
}

/// Finds the first record with the least key.
fn buscar(vm: &[Dato], d: &Dato, w: &[u64], criterio: Criterio, excluido: Option<usize>) -> (r:
    usize)
    requires
        vm@.len() > 0,
        muestra_medible(vm@, d@, w@),
    ensures
        r == primer_minimo(vm@, d@, w@, criterio, excluido, vm@.len()),
        r < vm@.len(),
{
    let mut mejor: usize = 0;
    let mut mejor_clave: u128 = u128::MAX;
    let mut j: usize = 0;
    while j < vm.len()
        invariant
            j <= vm@.len(),
            vm@.len() > 0,
            muestra_medible(vm@, d@, w@),
            j == 0 ==> mejor == 0 && mejor_clave == u128::MAX,
            j > 0 ==> mejor == primer_minimo(vm@, d@, w@, criterio, excluido, j as nat)
                && mejor_clave == clave(vm@, d@, w@, criterio, excluido, mejor as int),
            mejor < vm@.len(),
        decreases vm@.len() - j,
    {
        let x = &vm[j];
        let fuera = match excluido {
            Some(e) => e == j,
            None => false,
        };
        let descartado = fuera || match criterio {
            Criterio::Cualquiera => false,
            Criterio::MismaClase => x.id_categoria != d.id_categoria,
            Criterio::OtraClase => x.id_categoria == d.id_categoria,
        };
        let k: u128 = if descartado {
            u128::MAX
        } else {
            distancia_cuadrado(x, d, w)
        };
        assert(k == clave(vm@, d@, w@, criterio, excluido, j as int));
        proof {
            if j > 0 {
                lema_primer_minimo(vm@, d@, w@, criterio, excluido, j as nat);
            }
        }
        if j == 0 || k < mejor_clave {
            mejor = j;
            mejor_clave = k;
        }
        j += 1;
    }
    mejor
}

/// Class of the record of `vm` nearest to `d`; among equally near records
/// the first one counts.  `d` itself is matched when it is in `vm`.
pub fn get_mas_cercano(vm: &[Dato], d: &Dato, w: &[u64]) -> (c: i32)
    requires
        vm@.len() > 0,
        muestra_medible(vm@, d@, w@),
    ensures
        c == vm@[primer_minimo(vm@, d@, w@, Criterio::Cualquiera, None, vm@.len())]@.categoria,
{
    let k = buscar(vm, d, w, Criterio::Cualquiera, None);
    vm[k].id_categoria
}

/// Class of the record nearest to the one at `indice`, that record itself
/// left out.  In a sample of one record there is no other, and its own
/// class is returned.
pub fn get_mas_cercano_distinto(vm: &[Dato], indice: usize, w: &[u64]) -> (c: i32)
    requires
        indice < vm@.len(),
        muestra_medible(vm@, vm@[indice as int]@, w@),
    ensures
        c == vm@[primer_minimo(
            vm@,
            vm@[indice as int]@,
            w@,
            Criterio::Cualquiera,
            Some(indice),
            vm@.len(),
        )]@.categoria,
{
    let k = buscar(vm, &vm[indice], w, Criterio::Cualquiera, Some(indice));
    vm[k].id_categoria
}

/// Whether the record at `indice` has a friend: another record of its class.
pub open spec fn hay_amigo(vm: Seq<Dato>, indice: int) -> bool {
    exists|j: int|
        0 <= j < vm.len() && j != indice && (#[trigger] vm[j])@.categoria == vm[indice]@.categoria
}

/// Whether `d` has an enemy in `vm`: a record of another class.
pub open spec fn hay_enemigo(vm: Seq<Dato>, d: DatoModelo) -> bool {
    exists|j: int| 0 <= j < vm.len() && (#[trigger] vm[j])@.categoria != d.categoria
}

/// Decides `hay_amigo`.
pub fn tiene_amigo(vm: &[Dato], indice: usize) -> (b: bool)
    requires
        indice < vm@.len(),
    ensures
        b == hay_amigo(vm@, indice as int),
{
    let cat = vm[indice].id_categoria;
    let mut j: usize = 0;
    while j < vm.len()
        invariant
            j <= vm@.len(),
            indice < vm@.len(),
            cat == vm@[indice as int]@.categoria,
            forall|i: int| 0 <= i < j && i != indice ==> (#[trigger] vm@[i])@.categoria != cat,
        decreases vm@.len() - j,
    {
        if j != indice && vm[j].id_categoria == cat {
            return true;
        }
        j += 1;
    }
    false
}

/// Decides `hay_enemigo`.
pub fn tiene_enemigo(vm: &[Dato], d: &Dato) -> (b: bool)
    ensures
        b == hay_enemigo(vm@, d@),
{
    let mut j: usize = 0;
    while j < vm.len()
        invariant
            j <= vm@.len(),
            forall|i: int| 0 <= i < j ==> (#[trigger] vm@[i])@.categoria == d@.categoria,
        decreases vm@.len() - j,
    {
        if vm[j].id_categoria != d.id_categoria {
            return true;
        }
        j += 1;
    }
    false
}

/// The nearest friend of the record at `indice`: the nearest other record
/// of its class.  The caller makes sure that there is one.
pub fn get_amigo_mas_cercano<'a>(vm: &'a [Dato], indice: usize, w: &[u64]) -> (r: &'a Dato)
    requires
        indice < vm@.len(),
        muestra_medible(vm@, vm@[indice as int]@, w@),
        hay_amigo(vm@, indice as int),
    ensures
        *r == vm@[primer_minimo(
            vm@,
            vm@[indice as int]@,
            w@,
            Criterio::MismaClase,
            Some(indice),
            vm@.len(),
        )],
        r@.categoria == vm@[indice as int]@.categoria,
        primer_minimo(vm@, vm@[indice as int]@, w@, Criterio::MismaClase, Some(indice), vm@.len())
            != indice,
{
    let k = buscar(vm, &vm[indice], w, Criterio::MismaClase, Some(indice));
    proof {
        let j = choose|j: int|
            0 <= j < vm@.len() && j != indice && (#[trigger] vm@[j])@.categoria
                == vm@[indice as int]@.categoria;
        lema_minimo_admisible(
            vm@,
            vm@[indice as int]@,
            w@,
            Criterio::MismaClase,
            Some(indice),
            j,
        );
    }
    &vm[k]
}

/// The nearest enemy of `d`: the nearest record of another class.  The
/// caller makes sure that there is one.
pub fn get_enemigo_mas_cercano<'a>(vm: &'a [Dato], d: &Dato, w: &[u64]) -> (r: &'a Dato)
    requires
        muestra_medible(vm@, d@, w@),
        hay_enemigo(vm@, d@),
    ensures
        *r == vm@[primer_minimo(vm@, d@, w@, Criterio::OtraClase, None, vm@.len())],
        r@.categoria != d@.categoria,
{
    proof {
        let j = choose|j: int| 0 <= j < vm@.len() && (#[trigger] vm@[j])@.categoria != d@.categoria;
        lema_minimo_admisible(vm@, d@, w@, Criterio::OtraClase, None, j);
    }
    let k = buscar(vm, d, w, Criterio::OtraClase, None);
    &vm[k]
}


/// Two weight vectors that differ only in components that both prune.
pub open spec fn equivalentes(w1: Seq<u64>, w2: Seq<u64>) -> bool {
    &&& w1.len() == w2.len()
    &&& forall|i: int|
        0 <= i < w1.len() && (w1[i] >= UMBRAL || w2[i] >= UMBRAL) ==> #[trigger] w1[i] == w2[i]
}

/// Pruned weights add nothing to the distance over real attributes.
pub proof fn lema_reales_equivalentes(a: Seq<u64>, b: Seq<u64>, w1: Seq<u64>, w2: Seq<u64>, n: nat)
    requires
        equivalentes(w1, w2),
        n <= w1.len(),
    ensures
        distancia_reales(a, b, w1, n) == distancia_reales(a, b, w2, n),
    decreases n,
{
    if n > 0 {
        lema_reales_equivalentes(a, b, w1, w2, (n - 1) as nat);
        assert(w1[n - 1] >= UMBRAL || w2[n - 1] >= UMBRAL ==> w1[n - 1] == w2[n - 1]);
    }
}

/// Pruned weights add nothing to the distance over categorical attributes.
pub proof fn lema_categoricos_equivalentes(
    a: Seq<Seq<char>>,
    b: Seq<Seq<char>>,
    w1: Seq<u64>,
    w2: Seq<u64>,
    n: nat,
)
    requires
        equivalentes(w1, w2),
        n <= w1.len(),
    ensures
        distancia_categoricos(a, b, w1, n) == distancia_categoricos(a, b, w2, n),
    decreases n,
{
    if n > 0 {
        lema_categoricos_equivalentes(a, b, w1, w2, (n - 1) as nat);
        assert(w1[n - 1] >= UMBRAL || w2[n - 1] >= UMBRAL ==> w1[n - 1] == w2[n - 1]);
    }
}

/// Equivalent weight vectors measure the same distance between any two records.
pub proof fn lema_distancia_equivalente(a: DatoModelo, b: DatoModelo, w1: Seq<u64>, w2: Seq<u64>)
    requires
        equivalentes(w1, w2),
        w1.len() == a.aridad(),
    ensures
        distancia(a, b, w1) == distancia(a, b, w2),
{
    let nf = a.reales.len() as int;
    let f1 = w1.subrange(0, nf);
    let f2 = w2.subrange(0, nf);
    let c1 = w1.subrange(nf, w1.len() as int);
    let c2 = w2.subrange(nf, w2.len() as int);
    assert(equivalentes(f1, f2)) by {
        assert forall|i: int|
            0 <= i < f1.len() && (f1[i] >= UMBRAL || f2[i] >= UMBRAL) implies #[trigger] f1[i]
            == f2[i] by {
            assert(f1[i] == w1[i] && f2[i] == w2[i]);
        }
    }
    assert(equivalentes(c1, c2)) by {
        assert forall|i: int|
            0 <= i < c1.len() && (c1[i] >= UMBRAL || c2[i] >= UMBRAL) implies #[trigger] c1[i]
            == c2[i] by {
            assert(c1[i] == w1[i + nf] && c2[i] == w2[i + nf]);
        }
    }
    lema_reales_equivalentes(a.reales, b.reales, f1, f2, a.reales.len());
    lema_categoricos_equivalentes(a.categoricos, b.categoricos, c1, c2, a.categoricos.len());
}

/// Equivalent weight vectors find the same nearest record.
pub proof fn lema_primer_minimo_equivalente(
    vm: Seq<Dato>,
    d: DatoModelo,
    w1: Seq<u64>,
    w2: Seq<u64>,
    criterio: Criterio,
    excluido: Option<usize>,
    n: nat,
)
    requires
        equivalentes(w1, w2),
        n <= vm.len(),
        forall|j: int| 0 <= j < vm.len() ==> w1.len() == (#[trigger] vm[j]@).aridad(),
    ensures
        primer_minimo(vm, d, w1, criterio, excluido, n) == primer_minimo(
            vm,
            d,
            w2,
            criterio,
            excluido,
            n,
        ),
    decreases n,
{
    if n > 1 {
        lema_primer_minimo_equivalente(vm, d, w1, w2, criterio, excluido, (n - 1) as nat);
        let m = primer_minimo(vm, d, w1, criterio, excluido, (n - 1) as nat);
        lema_primer_minimo(vm, d, w1, criterio, excluido, (n - 1) as nat);
        lema_distancia_equivalente(vm[n - 1]@, d, w1, w2);
        lema_distancia_equivalente(vm[m]@, d, w1, w2);
    }
}

} // verus!
