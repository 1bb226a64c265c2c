//! The population of the generational genetic algorithms: individuals
//! ranked by score, best first.

use vstd::prelude::*;
use vstd::std_specs::btree::*;
use vstd::std_specs::cmp::OrdSpec;
use vstd::std_specs::iter::IteratorSpec;
use std::collections::BTreeMap;
use crate::knn::Dato;
use crate::evaluacion_pesos::{pesos_validos, puntuacion};

verus! {

/// An individual: a weight vector, its score, and the identifier that it
/// got when it was created.  Identifiers grow with time, so among
/// individuals of one score the one with the least identifier is the oldest.
pub struct Cromosoma {
    pub aptitud: u64,
    pub id: usize,
    pub pesos: Vec<u64>,
}

/// What an individual holds, as mathematical values.
pub ghost struct CromosomaModelo {
    pub aptitud: u64,
    pub id: usize,
    pub pesos: Seq<u64>,
}

impl View for Cromosoma {
    type V = CromosomaModelo;

    open spec fn view(&self) -> CromosomaModelo {
        CromosomaModelo { aptitud: self.aptitud, id: self.id, pesos: self.pesos@ }
    }
}

/// `a` ranks before `b`, as `antecede` has it.
pub open spec fn antes_de(a: CromosomaModelo, b: CromosomaModelo) -> bool {
    a.aptitud > b.aptitud || (a.aptitud == b.aptitud && a.id < b.id)
}

/// Number of individuals among the first `n` that rank before `c`.
pub open spec fn cuantos_antes(s: Seq<CromosomaModelo>, c: CromosomaModelo, n: nat) -> nat
    decreases n,
{
    if n == 0 {
        0
    } else {
        cuantos_antes(s, c, (n - 1) as nat) + (if antes_de(s[n - 1], c) {
            1nat
        } else {
            0nat
        })
    }
}

/// The ranked population `s` with `c` put at its rank.
pub open spec fn insertar_en(s: Seq<CromosomaModelo>, c: CromosomaModelo) -> Seq<CromosomaModelo> {
    s.insert(cuantos_antes(s, c, s.len()) as int, c)
}

/// Some individual of `s` has the identifier `id`.
pub open spec fn con_id(s: Seq<CromosomaModelo>, id: usize) -> bool {
    exists|i: int| 0 <= i < s.len() && (#[trigger] s[i]).id == id
}

/// Some individual of `s` holds exactly what `m` holds.
pub open spec fn con_modelo(s: Seq<CromosomaModelo>, m: CromosomaModelo) -> bool {
    exists|k: int| 0 <= k < s.len() && #[trigger] s[k] == m
}

/// No more individuals rank before `c` than there are.
pub proof fn lema_cuantos_antes_acotado(s: Seq<CromosomaModelo>, c: CromosomaModelo, n: nat)
    ensures
        cuantos_antes(s, c, n) <= n,
    decreases n,
{
    if n > 0 {
        lema_cuantos_antes_acotado(s, c, (n - 1) as nat);
    }
}

/// Putting `c` at its rank keeps every individual and adds `c`.
pub proof fn lema_insertar_conserva(s: Seq<CromosomaModelo>, c: CromosomaModelo)
    ensures
        con_modelo(insertar_en(s, c), c),
        forall|m: CromosomaModelo| con_modelo(s, m) ==> #[trigger] con_modelo(insertar_en(s, c), m),
{
    lema_cuantos_antes_acotado(s, c, s.len());
    let p = cuantos_antes(s, c, s.len()) as int;
    let r = insertar_en(s, c);
    assert(r[p] == c);
    assert forall|m: CromosomaModelo| con_modelo(s, m) implies #[trigger] con_modelo(r, m) by {
        let k = choose|k: int| 0 <= k < s.len() && #[trigger] s[k] == m;
        if k < p {
            assert(r[k] == m);
        } else {
            assert(r[k + 1] == m);
        }
    }
}

/// In a ranked population those that rank before `c` come first: among
/// the first `n`, an individual ranks before `c` if and only if its
/// position is below their number.
pub proof fn lema_corte(s: Seq<CromosomaModelo>, c: CromosomaModelo, n: nat)
    requires
        n <= s.len(),
        forall|i: int, j: int| 0 <= i < j < s.len() ==> antes_de(s[i], s[j]),
    ensures
        cuantos_antes(s, c, n) <= n,
        forall|j: int| 0 <= j < n ==> (antes_de(#[trigger] s[j], c) <==> j < cuantos_antes(s, c, n)),
    decreases n,
{
    if n > 0 {
        lema_corte(s, c, (n - 1) as nat);
        let p = cuantos_antes(s, c, (n - 1) as nat);
        if antes_de(s[n - 1], c) {
            assert forall|j: int| 0 <= j < n - 1 implies antes_de(#[trigger] s[j], c) by {
                assert(antes_de(s[j], s[n - 1]));
            }
            if p < n - 1 {
                assert(antes_de(s[p as int], c));
            }
        }
    }
}

/// A weight vector with its score, for the populations that give their
/// members no identifier.
pub struct Individuo {
    pub pesos: Vec<u64>,
    pub aptitud: u64,
}

/// `a` ranks before `b`: it scores higher, or scores the same and is older.
pub open spec fn antecede(a: Cromosoma, b: Cromosoma) -> bool {
    a.aptitud > b.aptitud || (a.aptitud == b.aptitud && a.id < b.id)
}

/// Decides whether the key `(aptitud_a, id_a)` ranks before `(aptitud_b, id_b)`.
pub fn va_antes(aptitud_a: u64, id_a: usize, aptitud_b: u64, id_b: usize) -> (b: bool)
    ensures
        b == (aptitud_a > aptitud_b || (aptitud_a == aptitud_b && id_a < id_b)),
{
    aptitud_a > aptitud_b || (aptitud_a == aptitud_b && id_a < id_b)
}

/// The key under which an individual of score `aptitud` and
/// identifier `id` stands in the ordered map of a population: the
/// distance of its score from the largest, and its identifier.  The
/// keys grow as the rank falls: a higher score gives a lesser key, and
/// among equal scores the lesser identifier does.
pub open spec fn clave_de(aptitud: u64, id: usize) -> (u64, usize) {
    ((u64::MAX - aptitud) as u64, id)
}

/// The order of the keys: by their first part, then by their second.
pub open spec fn clave_menor(a: (u64, usize), b: (u64, usize)) -> bool {
    a.0 < b.0 || (a.0 == b.0 && a.1 < b.1)
}

/// The individuals `ms` hold what those of `p` hold, one by one.
pub open spec fn son_copias(ms: Seq<Cromosoma>, p: Seq<Cromosoma>) -> bool {
    ms.len() == p.len() && forall|j: int| 0 <= j < ms.len() ==> (#[trigger] ms[j])@ == p[j]@
}

/// A population.  Its individuals stand in an ordered map from their
/// keys to their weights, which hands them out by rank, best first.
/// `individuos` is what the map holds, as the sequence of its
/// individuals by rank: the contracts speak of it, and `coherente` ties
/// the two together.
pub struct Poblacion {
    pub arbol: BTreeMap<(u64, usize), Vec<u64>>,
    pub individuos: Ghost<Seq<Cromosoma>>,
}

impl Cromosoma {
    /// A copy of the individual.
    pub fn clonar(&self) -> (c: Cromosoma)
        ensures
            c@ == self@,
            c.aptitud == self.aptitud,
            c.id == self.id,
            c.pesos@ == self.pesos@,
    {
        let pesos = self.pesos.clone();
        assert(pesos@ == self.pesos@);
        Cromosoma { aptitud: self.aptitud, id: self.id, pesos }
    }
}

impl View for Poblacion {
    type V = Seq<CromosomaModelo>;

    open spec fn view(&self) -> Seq<CromosomaModelo> {
        Seq::new(self.individuos@.len(), |i: int| self.individuos@[i]@)
    }
}

impl Poblacion {
    /// The map holds the individuals of the sequence and no others, each
    /// under its key with its weights.
    pub open spec fn coherente(&self) -> bool {
        &&& self.arbol@.dom().finite()
        &&& self.arbol@.dom().len() == self.individuos@.len()
        &&& forall|i: int|
            0 <= i < self.individuos@.len() ==> {
                &&& self.arbol@.contains_key(
                    clave_de((#[trigger] self.individuos@[i]).aptitud, self.individuos@[i].id),
                )
                &&& self.arbol@[clave_de(self.individuos@[i].aptitud, self.individuos@[i].id)]
                    == self.individuos@[i].pesos
            }
        &&& forall|k: (u64, usize)|
            self.arbol@.contains_key(k) ==> exists|i: int|
                0 <= i < self.individuos@.len() && clave_de(
                    (#[trigger] self.individuos@[i]).aptitud,
                    self.individuos@[i].id,
                ) == k
    }

    /// The map and the sequence agree, and every individual ranks
    /// before those that follow it.
    pub open spec fn ordenada(&self) -> bool {
        &&& self.coherente()
        &&& forall|i: int, j: int|
            0 <= i < j < self.individuos@.len() ==> antecede(
                self.individuos@[i],
                self.individuos@[j],
            )
    }

    /// No identifier occurs twice.
    pub open spec fn ids_distintos(&self) -> bool {
        forall|i: int, j: int|
            0 <= i < self.individuos@.len() && 0 <= j < self.individuos@.len() && i != j
                ==> self.individuos@[i].id != self.individuos@[j].id
    }

    /// Every individual is a weight vector for `e` and carries its score.
    pub open spec fn evaluada(&self, e: Seq<Dato>) -> bool {
        forall|i: int|
            0 <= i < self.individuos@.len() ==> pesos_validos(
                e,
                (#[trigger] self.individuos@[i]).pesos@,
            ) && self.individuos@[i].aptitud == puntuacion(e, self.individuos@[i].pesos@)
    }

    /// The invariant of a population for the sample `e`.
    pub open spec fn bien_formada(&self, e: Seq<Dato>) -> bool {
        self.ordenada() && self.ids_distintos() && self.evaluada(e)
    }

    /// Some individual has the identifier `id`.
    pub open spec fn contiene_id(&self, id: usize) -> bool {
        exists|i: int| 0 <= i < self.individuos@.len() && (#[trigger] self.individuos@[i]).id == id
    }

    /// No identifier exceeds `cota`.
    pub open spec fn ids_hasta(&self, cota: usize) -> bool {
        forall|i: int|
            0 <= i < self.individuos@.len() ==> (#[trigger] self.individuos@[i]).id <= cota
    }

    /// Some individual has the identifier `id` and scores at least `aptitud`.
    pub open spec fn contiene_con(&self, id: usize, aptitud: u64) -> bool {
        exists|i: int|
            0 <= i < self.individuos@.len() && (#[trigger] self.individuos@[i]).id == id
                && self.individuos@[i].aptitud >= aptitud
    }

    /// The score of the best individual; zero in an empty population.
    pub open spec fn mejor_aptitud(&self) -> u64 {
        if self.individuos@.len() == 0 {
            0
        } else {
            self.individuos@[0].aptitud
        }
    }

    /// An empty population.
    pub fn new() -> (p: Poblacion)
        ensures
            p.individuos@.len() == 0,
            p.ordenada(),
            p.ids_distintos(),
    {
        broadcast use group_btree_axioms;
        let p = Poblacion { arbol: BTreeMap::new(), individuos: Ghost(Seq::empty()) };
        assert(p.arbol@.dom() =~= Set::empty());
        p
    }

    /// Number of individuals.
    pub fn len(&self) -> (n: usize)
        requires
            self.coherente(),
        ensures
            n == self.individuos@.len(),
    {
        broadcast use group_btree_axioms;
        self.arbol.len()
    }

    /// The individuals by rank, best first: copies of what the map
    /// holds, in the order in which it hands them out.
    pub fn en_orden(&self) -> (r: Vec<Cromosoma>)
        requires
            self.ordenada(),
        ensures
            r@.len() == self.individuos@.len(),
            forall|i: int|
                0 <= i < r@.len() ==> {
                    &&& (#[trigger] r@[i]).aptitud == self.individuos@[i].aptitud
                    &&& r@[i].id == self.individuos@[i].id
                    &&& r@[i].pesos@ == self.individuos@[i].pesos@
                    &&& r@[i]@ == self.individuos@[i]@
                },
            son_copias(r@, self.individuos@),
    {
        broadcast use group_btree_axioms;
        let ghost pares = self.arbol.iter().remaining();
        let mut r: Vec<Cromosoma> = Vec::new();
        for par in it: self.arbol.iter()
            invariant
                it.seq() == pares,
                r@.len() == it.index(),
                forall|i: int|
                    0 <= i < r@.len() ==> {
                        &&& clave_de((#[trigger] r@[i]).aptitud, r@[i].id) == *pares[i].0
                        &&& r@[i].pesos@ == pares[i].1@
                    },
        {
            let pesos = par.1.clone();
            assert(pesos@ == par.1@);
            r.push(Cromosoma { aptitud: u64::MAX - par.0.0, id: par.0.1, pesos });
        }
        proof {
            let claves = pares.map_values(|kv: (&(u64, usize), &Vec<u64>)| *kv.0);
            let modelo = Seq::new(
                self.individuos@.len(),
                |i: int| clave_de(self.individuos@[i].aptitud, self.individuos@[i].id),
            );
            assert(claves.len() == modelo.len());
            assert forall|i: int, j: int| 0 <= i < j < claves.len() implies clave_menor(
                claves[i],
                claves[j],
            ) by {
                lema_claves_crecen(claves, i, j);
            }
            assert forall|i: int, j: int| 0 <= i < j < modelo.len() implies clave_menor(
                modelo[i],
                modelo[j],
            ) by {
                assert(antecede(self.individuos@[i], self.individuos@[j]));
            }
            assert forall|i: int| 0 <= i < claves.len() implies modelo.contains(
                #[trigger] claves[i],
            ) by {
                assert(self.arbol@.contains_key(*pares[i].0));
                let k = choose|k: int|
                    0 <= k < self.individuos@.len() && clave_de(
                        (#[trigger] self.individuos@[k]).aptitud,
                        self.individuos@[k].id,
                    ) == claves[i];
                assert(modelo[k] == claves[i]);
            }
            assert forall|i: int| 0 <= i < modelo.len() implies claves.contains(
                #[trigger] modelo[i],
            ) by {
                let k = modelo[i];
                assert(self.arbol@.contains_key(
                    clave_de(self.individuos@[i].aptitud, self.individuos@[i].id),
                ));
                assert(pares.contains((&k, &self.arbol@[k])));
                let a = choose|a: int| 0 <= a < pares.len() && pares[a] == (&k, &self.arbol@[k]);
                assert(claves[a] == k);
            }
            assert forall|i: int| 0 <= i < r@.len() implies {
                &&& (#[trigger] r@[i]).aptitud == self.individuos@[i].aptitud
                &&& r@[i].id == self.individuos@[i].id
                &&& r@[i].pesos@ == self.individuos@[i].pesos@
                &&& r@[i]@ == self.individuos@[i]@
            } by {
                lema_orden_unico(claves, modelo, i);
                assert(claves[i] == *pares[i].0);
                assert(modelo[i] == clave_de(self.individuos@[i].aptitud, self.individuos@[i].id));
                assert(self.arbol@[*pares[i].0] == *pares[i].1);
            }
        }
        r
    }

    /// Whether some individual has the identifier `id`.
    pub fn tiene_id(&self, id: usize) -> (b: bool)
        requires
            self.ordenada(),
        ensures
            b == self.contiene_id(id),
            b == con_id(self@, id),
    {
        let miembros = self.en_orden();
        let mut i: usize = 0;
        while i < miembros.len()
            invariant
                i <= miembros@.len(),
                miembros@.len() == self.individuos@.len(),
                forall|j: int|
                    0 <= j < miembros@.len() ==> (#[trigger] miembros@[j]).id
                        == self.individuos@[j].id,
                forall|j: int| 0 <= j < i ==> (#[trigger] self.individuos@[j]).id != id,
            decreases miembros@.len() - i,
        {
            if miembros[i].id == id {
                assert(self.individuos@[i as int].id == id);
                assert(self@[i as int].id == id);
                return true;
            }
            i += 1;
        }
        proof {
            if con_id(self@, id) {
                let k = choose|k: int| 0 <= k < self@.len() && (#[trigger] self@[k]).id == id;
                assert(self.individuos@[k].id == id);
            }
        }
        false
    }

    /// The rank that `c` takes: the number of individuals that rank before it.
    pub fn rango(&self, aptitud: u64, id: usize) -> (p: usize)
        requires
            self.ordenada(),
        ensures
            p <= self.individuos@.len(),
            forall|j: int|
                0 <= j < p ==> (#[trigger] self.individuos@[j]).aptitud > aptitud || (
                self.individuos@[j].aptitud == aptitud && self.individuos@[j].id < id),
            forall|j: int|
                p <= j < self.individuos@.len() ==> !((#[trigger] self.individuos@[j]).aptitud
                    > aptitud || (self.individuos@[j].aptitud == aptitud && self.individuos@[j].id
                    < id)),
    {
        let miembros = self.en_orden();
        let mut p: usize = 0;
        while p < miembros.len() && va_antes(miembros[p].aptitud, miembros[p].id, aptitud, id)
            invariant
                p <= miembros@.len(),
                miembros@.len() == self.individuos@.len(),
                forall|j: int|
                    0 <= j < miembros@.len() ==> (#[trigger] miembros@[j]).aptitud
                        == self.individuos@[j].aptitud && miembros@[j].id
                        == self.individuos@[j].id,
                self.ordenada(),
                forall|j: int|
                    0 <= j < p ==> (#[trigger] self.individuos@[j]).aptitud > aptitud || (
                    self.individuos@[j].aptitud == aptitud && self.individuos@[j].id < id),
            decreases miembros@.len() - p,
        {
            p += 1;
        }
        proof {
            if p < self.individuos@.len() {
                assert(miembros@[p as int].aptitud == self.individuos@[p as int].aptitud);
                assert forall|j: int| p <= j < self.individuos@.len() implies !((
                #[trigger] self.individuos@[j]).aptitud > aptitud || (self.individuos@[j].aptitud
                    == aptitud && self.individuos@[j].id < id)) by {
                    if j > p {
                        assert(antecede(self.individuos@[p as int], self.individuos@[j]));
                    }
                }
            }
        }
        p
    }

    /// Puts `c` at its rank.  Its identifier is new to the population.
    pub fn insertar(&mut self, c: Cromosoma)
        requires
            old(self).ordenada(),
            old(self).ids_distintos(),
            !old(self).contiene_id(c.id),
        ensures
            final(self).ordenada(),
            final(self).ids_distintos(),
            final(self)@ == insertar_en(old(self)@, c@),
            exists|p: int|
                0 <= p <= old(self).individuos@.len() && final(self).individuos@ == old(
                    self,
                ).individuos@.insert(p, c),
            final(self).individuos@.len() == old(self).individuos@.len() + 1,
            final(self).contiene_id(c.id),
            forall|id: usize| old(self).contiene_id(id) ==> final(self).contiene_id(id),
            forall|id: usize| final(self).contiene_id(id) ==> id == c.id || old(self).contiene_id(id),
            final(self).contiene_con(c.id, c.aptitud),
            forall|id: usize, a: u64|
                old(self).contiene_con(id, a) ==> #[trigger] final(self).contiene_con(id, a),
            forall|e: Seq<Dato>|
                old(self).evaluada(e) && pesos_validos(e, c.pesos@) && c.aptitud == puntuacion(
                    e,
                    c.pesos@,
                ) ==> #[trigger] final(self).evaluada(e),
            forall|cota: usize|
                old(self).ids_hasta(cota) && c.id <= cota ==> #[trigger] final(self).ids_hasta(cota),
    {
        broadcast use group_btree_axioms;
        let ghost previo = self.individuos@;
        let ghost vista_previa = self@;
        let ghost nuevo = c;
        let ghost p: int = cuantos_antes(vista_previa, nuevo@, vista_previa.len()) as int;
        proof {
            assert forall|i: int, j: int| 0 <= i < j < vista_previa.len() implies antes_de(
                vista_previa[i],
                vista_previa[j],
            ) by {
                assert(antecede(previo[i], previo[j]));
            }
            lema_corte(vista_previa, nuevo@, vista_previa.len());
        }
        let ghost mapa_previo = self.arbol@;
        let clave: (u64, usize) = (u64::MAX - c.aptitud, c.id);
        proof {
            if mapa_previo.contains_key(clave) {
                let i = choose|i: int|
                    0 <= i < previo.len() && clave_de((#[trigger] previo[i]).aptitud, previo[i].id)
                        == clave;
                assert(old(self).contiene_id(previo[i].id));
            }
        }
        self.arbol.insert(clave, c.pesos);
        self.individuos = Ghost(previo.insert(p, nuevo));
        proof {
            let ahora = self.individuos@;
            assert(ahora == previo.insert(p, nuevo));
            assert(self.arbol@ == mapa_previo.insert(clave, nuevo.pesos));
            assert(self.arbol@.dom() =~= mapa_previo.dom().insert(clave));
            assert forall|i: int| 0 <= i < ahora.len() implies {
                &&& self.arbol@.contains_key(clave_de((#[trigger] ahora[i]).aptitud, ahora[i].id))
                &&& self.arbol@[clave_de(ahora[i].aptitud, ahora[i].id)] == ahora[i].pesos
            } by {
                if i < p {
                    assert(ahora[i] == previo[i]);
                    assert(previo[i].id != nuevo.id) by {
                        if previo[i].id == nuevo.id {
                            assert(old(self).contiene_id(nuevo.id));
                        }
                    }
                } else if i > p {
                    assert(ahora[i] == previo[i - 1]);
                    assert(previo[i - 1].id != nuevo.id) by {
                        if previo[i - 1].id == nuevo.id {
                            assert(old(self).contiene_id(nuevo.id));
                        }
                    }
                }
            }
            assert forall|k: (u64, usize)| self.arbol@.contains_key(k) implies exists|i: int|
                0 <= i < ahora.len() && clave_de((#[trigger] ahora[i]).aptitud, ahora[i].id)
                    == k by {
                if k == clave {
                    assert(clave_de(ahora[p].aptitud, ahora[p].id) == k);
                } else {
                    let i = choose|i: int|
                        0 <= i < previo.len() && clave_de(
                            (#[trigger] previo[i]).aptitud,
                            previo[i].id,
                        ) == k;
                    let i2 = if i < p {
                        i
                    } else {
                        i + 1
                    };
                    assert(ahora[i2] == previo[i]);
                    assert(clave_de(ahora[i2].aptitud, ahora[i2].id) == k);
                }
            }
            assert(self.coherente());
            assert forall|j: int| 0 <= j < p implies (#[trigger] previo[j]).aptitud > nuevo.aptitud
                || (previo[j].aptitud == nuevo.aptitud && previo[j].id < nuevo.id) by {
                assert(antes_de(vista_previa[j], nuevo@));
                assert(vista_previa[j] == previo[j]@);
            }
            assert forall|j: int| p <= j < previo.len() implies !((#[trigger] previo[j]).aptitud
                > nuevo.aptitud || (previo[j].aptitud == nuevo.aptitud && previo[j].id
                < nuevo.id)) by {
                assert(!antes_de(vista_previa[j], nuevo@));
                assert(vista_previa[j] == previo[j]@);
            }
            assert(self@ =~= insertar_en(vista_previa, nuevo@));
            assert forall|i: int, j: int| 0 <= i < j < ahora.len() implies antecede(
                ahora[i],
                ahora[j],
            ) by {
                let a = if i < p { previo[i] } else if i == p { nuevo } else { previo[i - 1] };
                let b = if j < p { previo[j] } else if j == p { nuevo } else { previo[j - 1] };
                assert(ahora[i] == a && ahora[j] == b);
                if j == p {
                } else if i == p {
                    assert(!old(self).contiene_id(nuevo.id));
                    assert(previo[j - 1].id != nuevo.id);
                } else if i < p && j > p {
                    assert(antecede(previo[i], previo[j - 1]));
                }
            }
            assert forall|i: int, j: int|
                0 <= i < ahora.len() && 0 <= j < ahora.len() && i != j implies ahora[i].id
                != ahora[j].id by {
                let a = if i < p { previo[i] } else if i == p { nuevo } else { previo[i - 1] };
                let b = if j < p { previo[j] } else if j == p { nuevo } else { previo[j - 1] };
                assert(ahora[i] == a && ahora[j] == b);
            }
            assert(ahora[p].id == nuevo.id);
            assert forall|id: usize| old(self).contiene_id(id) implies self.contiene_id(id) by {
                let k = choose|k: int| 0 <= k < previo.len() && (#[trigger] previo[k]).id == id;
                let k2 = if k < p { k } else { k + 1 };
                assert(ahora[k2] == previo[k]);
            }
            assert forall|id: usize, a: u64|
                old(self).contiene_con(id, a) implies #[trigger] self.contiene_con(id, a) by {
                let k = choose|k: int|
                    0 <= k < previo.len() && (#[trigger] previo[k]).id == id && previo[k].aptitud
                        >= a;
                let k2 = if k < p { k } else { k + 1 };
                assert(ahora[k2] == previo[k]);
            }
            assert forall|e: Seq<Dato>|
                old(self).evaluada(e) && pesos_validos(e, nuevo.pesos@) && nuevo.aptitud
                    == puntuacion(e, nuevo.pesos@) implies #[trigger] self.evaluada(e) by {
                assert forall|i: int| 0 <= i < ahora.len() implies pesos_validos(
                    e,
                    (#[trigger] ahora[i]).pesos@,
                ) && ahora[i].aptitud == puntuacion(e, ahora[i].pesos@) by {
                    if i < p {
                        assert(ahora[i] == previo[i]);
                    } else if i > p {
                        assert(ahora[i] == previo[i - 1]);
                    }
                }
            }
            assert forall|cota: usize|
                old(self).ids_hasta(cota) && nuevo.id <= cota implies #[trigger] self.ids_hasta(
                cota,
            ) by {
                assert forall|i: int| 0 <= i < ahora.len() implies (#[trigger] ahora[i]).id
                    <= cota by {
                    if i < p {
                        assert(ahora[i] == previo[i]);
                    } else if i > p {
                        assert(ahora[i] == previo[i - 1]);
                    }
                }
            }
            assert forall|id: usize| self.contiene_id(id) implies id == nuevo.id || old(
                self,
            ).contiene_id(id) by {
                let k = choose|k: int| 0 <= k < ahora.len() && (#[trigger] ahora[k]).id == id;
                if k < p {
                    assert(ahora[k] == previo[k]);
                } else if k > p {
                    assert(ahora[k] == previo[k - 1]);
                }
            }
        }
    }

    /// Takes the worst individual out.
    pub fn eliminar_peor(&mut self) -> (c: Cromosoma)
        requires
            old(self).individuos@.len() > 0,
            old(self).ordenada(),
        ensures
            final(self).individuos@ == old(self).individuos@.drop_last(),
            final(self).ordenada(),
            final(self)@ == old(self)@.drop_last(),
            c == old(self).individuos@.last(),
            old(self).ordenada() ==> final(self).ordenada(),
            old(self).ids_distintos() ==> final(self).ids_distintos(),
            forall|e: Seq<Dato>| old(self).evaluada(e) ==> #[trigger] final(self).evaluada(e),
            forall|cota: usize| old(self).ids_hasta(cota) ==> #[trigger] final(self).ids_hasta(cota),
    {
        broadcast use group_btree_axioms;
        let ghost previo = self.individuos@;
        let ghost mapa_previo = self.arbol@;
        let miembros = self.en_orden();
        let ultimo: usize = miembros.len() - 1;
        let aptitud: u64 = miembros[ultimo].aptitud;
        let id: usize = miembros[ultimo].id;
        let clave: (u64, usize) = (u64::MAX - aptitud, id);
        assert(clave == clave_de(previo[ultimo as int].aptitud, previo[ultimo as int].id));
        assert(mapa_previo.contains_key(clave));
        let quitado = self.arbol.remove(&clave);
        assert(self.arbol@ == mapa_previo.remove(clave));
        assert(quitado == Some(mapa_previo[clave]));
        let pesos = quitado.unwrap();
        self.individuos = Ghost(previo.drop_last());
        let c = Cromosoma { aptitud, id, pesos };
        proof {
            let ahora = self.individuos@;
            assert forall|i: int| 0 <= i < ahora.len() implies ahora[i] == previo[i] by {}
            assert(self@ =~= old(self)@.drop_last());
            assert(self.arbol@.dom() =~= mapa_previo.dom().remove(clave));
            assert forall|i: int| 0 <= i < ahora.len() implies {
                &&& self.arbol@.contains_key(clave_de((#[trigger] ahora[i]).aptitud, ahora[i].id))
                &&& self.arbol@[clave_de(ahora[i].aptitud, ahora[i].id)] == ahora[i].pesos
            } by {
                assert(ahora[i] == previo[i]);
                assert(antecede(previo[i], previo[ultimo as int]));
            }
            assert forall|k: (u64, usize)| self.arbol@.contains_key(k) implies exists|i: int|
                0 <= i < ahora.len() && clave_de((#[trigger] ahora[i]).aptitud, ahora[i].id)
                    == k by {
                let i = choose|i: int|
                    0 <= i < previo.len() && clave_de((#[trigger] previo[i]).aptitud, previo[i].id)
                        == k;
                assert(i != ultimo);
                assert(ahora[i] == previo[i]);
            }
            assert(self.coherente());
            assert forall|i: int, j: int| 0 <= i < j < ahora.len() implies antecede(
                ahora[i],
                ahora[j],
            ) by {
                assert(antecede(previo[i], previo[j]));
            }
        }
        c
    }
}

/// Keys that the map hands out in increasing order grow by their
/// first part, and by their second part where the first parts are equal.
proof fn lema_claves_crecen(claves: Seq<(u64, usize)>, i: int, j: int)
    requires
        increasing_seq(claves),
        0 <= i < j < claves.len(),
    ensures
        clave_menor(claves[i], claves[j]),
{
    broadcast use {group_btree_axioms, vstd::laws_cmp::group_laws_cmp};
    assert(vstd::laws_cmp::obeys_cmp::<(u64, usize)>());
    axiom_increasing_seq_meaning::<(u64, usize)>(claves);
    assert(claves[i].cmp_spec(&claves[j]) is Less);
}

/// Two growing sequences of as many keys, each holding the keys of the
/// other, are one sequence.
proof fn lema_orden_unico(s: Seq<(u64, usize)>, t: Seq<(u64, usize)>, i: int)
    requires
        s.len() == t.len(),
        forall|a: int, b: int| 0 <= a < b < s.len() ==> clave_menor(s[a], s[b]),
        forall|a: int, b: int| 0 <= a < b < t.len() ==> clave_menor(t[a], t[b]),
        forall|a: int| 0 <= a < s.len() ==> t.contains(#[trigger] s[a]),
        forall|a: int| 0 <= a < t.len() ==> s.contains(#[trigger] t[a]),
        0 <= i < s.len(),
    ensures
        s[i] == t[i],
    decreases i,
{
    assert forall|j: int| 0 <= j < i implies s[j] == t[j] by {
        lema_orden_unico(s, t, j);
    }
    assert(t.contains(s[i]));
    assert(s.contains(t[i]));
    let a = choose|a: int| 0 <= a < t.len() && t[a] == s[i];
    let b = choose|b: int| 0 <= b < s.len() && s[b] == t[i];
    if a < i {
        assert(s[a] == t[a]);
        assert(clave_menor(s[a], s[i]));
    }
    if b < i {
        assert(s[b] == t[b]);
        assert(clave_menor(t[b], t[i]));
    }
    if a > i {
        assert(clave_menor(t[i], t[a]));
    }
    if b > i {
        assert(clave_menor(s[i], s[b]));
    }
}

/// `x` does not rank after `b`: it scores higher, or scores the same
/// and is no younger.
pub open spec fn no_peor_que(x: Cromosoma, b: Cromosoma) -> bool {
    x.aptitud > b.aptitud || (x.aptitud == b.aptitud && x.id <= b.id)
}

/// The first of a ranked population does not rank after any individual
/// that has the identifier of one of its own and scores no more.
pub proof fn lema_primero(p: Poblacion, b: Cromosoma)
    requires
        p.ordenada(),
        p.contiene_con(b.id, b.aptitud),
    ensures
        p.individuos@.len() > 0,
        no_peor_que(p.individuos@[0], b),
{
    let k = choose|k: int|
        0 <= k < p.individuos@.len() && (#[trigger] p.individuos@[k]).id == b.id
            && p.individuos@[k].aptitud >= b.aptitud;
    if k > 0 {
        assert(antecede(p.individuos@[0], p.individuos@[k]));
    }
}

/// Where an individual is put into a ranked population, the new first
/// does not rank after the first that was.
pub proof fn lema_primero_tras_insertar(previa: Poblacion, nueva: Poblacion, c: Cromosoma)
    requires
        nueva.ordenada(),
        previa.individuos@.len() > 0,
        exists|p: int|
            0 <= p <= previa.individuos@.len() && nueva.individuos@ == previa.individuos@.insert(
                p,
                c,
            ),
    ensures
        no_peor_que(nueva.individuos@[0], previa.individuos@[0]),
{
    let p = choose|p: int|
        0 <= p <= previa.individuos@.len() && nueva.individuos@ == previa.individuos@.insert(p, c);
    if p == 0 {
        assert(nueva.individuos@[1] == previa.individuos@[0]);
        assert(antecede(nueva.individuos@[0], nueva.individuos@[1]));
    } else {
        assert(nueva.individuos@[0] == previa.individuos@[0]);
    }
}

/// In a ranked population nobody scores above the first.
pub proof fn lema_mejor(p: Poblacion, id: usize, aptitud: u64)
    requires
        p.ordenada(),
        p.contiene_con(id, aptitud),
    ensures
        p.mejor_aptitud() >= aptitud,
        p.individuos@.len() > 0,
{
    let k = choose|k: int|
        0 <= k < p.individuos@.len() && (#[trigger] p.individuos@[k]).id == id
            && p.individuos@[k].aptitud >= aptitud;
    if k > 0 {
        assert(antecede(p.individuos@[0], p.individuos@[k]));
    }
}

/// Individuals with different identifiers, each of which occurs in `b`,
/// are no more than `b` holds.
pub proof fn lema_palomar(a: Seq<Cromosoma>, b: Poblacion)
    requires
        forall|i: int, j: int| 0 <= i < a.len() && 0 <= j < a.len() && i != j ==> a[i].id != a[j].id,
        forall|i: int| 0 <= i < a.len() ==> b.contiene_id(#[trigger] a[i].id),
    ensures
        a.len() <= b.individuos@.len(),
{
    let ia = Seq::new(a.len(), |i: int| a[i].id);
    let ib = Seq::new(b.individuos@.len(), |k: int| b.individuos@[k].id);
    assert(ia.no_duplicates());
    ia.unique_seq_to_set();
    ib.lemma_cardinality_of_set();
    assert(ia.to_set().subset_of(ib.to_set())) by {
        assert forall|x: usize| ia.to_set().contains(x) implies ib.to_set().contains(x) by {
            assert(ia.contains(x));
            let i = choose|i: int| 0 <= i < ia.len() && ia[i] == x;
            assert(b.contiene_id(a[i].id));
            let k = choose|k: int|
                0 <= k < b.individuos@.len() && (#[trigger] b.individuos@[k]).id == a[i].id;
            assert(ib[k] == x);
            assert(ib.contains(x));
        }
    }
    vstd::seq_lib::seq_to_set_is_finite(ib);
    vstd::set_lib::lemma_len_subset(ia.to_set(), ib.to_set());
}

} // verus!
