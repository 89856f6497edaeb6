//! A run of the pipeline: the stages in their order, each fed with what the geometry
//! provider answered to the request of the stage before.
//!
//! The run itself measures nothing.  Its driver does that: it asks the run what is
//! needed next, obtains it, and hands it over.  An answer that comes at the wrong
//! stage, or that does not fit what was asked, ends the run.

use vstd::prelude::*;
use crate::accesibilidad::{accesibilidad, medido};
use crate::consulta::listas_validas;
use crate::jardinero::{
    alcanza, centros, centros_etiquetados, cultivable, fuera_de_alcance, jardin, jardinero,
    puede_crecer, Vecino,
};
use crate::malla::{aristas, aristas_de, aristas_en_rango, es_malla, puede_triangular};
use crate::negocio::{
    bien_formado, censar, conserva, conserva_bien_formado, es_censo, frescos, sembrar, splitter,
    sueltos, sueltos_son_posiciones, Acces, Censo, Negocio,
};
use crate::rankeo::{
    alcance, medidos, puede_rankear, rankeable, rankeado, rankeo, semillas_en, semillas_en_orden,
    todas_semillas, vecindad,
};
use crate::tejedor::{pesadas, pesar, sin_cruces, tejedor, tejido};
use crate::totems::{puede_resolver, relleno, totems};

verus! {

/// How far a run has come.
#[derive(Clone, Copy, Debug, PartialEq, Eq, Structural)]
pub enum Etapa {
    /// The entities are registered.
    Sembrado,
    /// Every entity has its density score.
    Medido,
    /// Every entity has its rank, and the seeds have their labels.
    Rankeado,
    /// The seeds have grown.
    Crecido,
    /// The edges of the triangulation are known and await their weights.
    Triangulado,
    /// The labels have spread over the triangulation.
    Tejido,
    /// The gaps are filled: the run is over.
    Resuelto,
}

/// Why a run refused an answer.
#[derive(Clone, Copy, Debug, PartialEq, Eq, Structural)]
pub enum Fallo {
    /// The run is not at the stage that takes this answer.
    FueraDeOrden,
    /// The answer does not fit what was asked.
    Malformada,
}

/// The refusal of an answer meant for the stage `espera` by a run at the stage `etapa`.
pub open spec fn rechazo(etapa: Etapa, espera: Etapa) -> Fallo {
    if etapa != espera {
        Fallo::FueraDeOrden
    } else {
        Fallo::Malformada
    }
}

/// The scores `medidas` fit the arena: there is one for each entity, and the
/// neighbourhood that each calls for can be counted on this machine.
pub open spec fn medible(datos: Seq<Negocio>, medidas: Seq<Acces>) -> bool {
    &&& medidas.len() == datos.len()
    &&& forall|i: int| 0 <= i < medidas.len() ==> alcance((#[trigger] medidas[i]).piso as nat) <= usize::MAX
}

/// Every seed carries a label.
pub open spec fn semillas_etiquetadas(datos: Seq<Negocio>) -> bool {
    forall|i: int| 0 <= i < datos.len() ==> ((#[trigger] datos[i]).es_semilla() ==> datos[i].cluster is Some)
}

/// No entity carries a rank or a label.
pub open spec fn sin_rankear(datos: Seq<Negocio>) -> bool {
    forall|i: int|
        0 <= i < datos.len() ==> (#[trigger] datos[i]).ranking is None && datos[i].cluster is None
}

/// A run of the pipeline over its own arena of entities.
///
/// A run starts at `Etapa::Sembrado` and moves on by one stage with every answer it
/// accepts: `medir`, `rankear`, `crecer`, `triangular`, `tejer`, `resolver`, in this
/// order.  Each of them takes the run and gives back the run at its next stage, or the
/// reason why the answer was refused; a refused answer ends the run.  Between two
/// answers the run says what the next one is to hold: see `centros`, `aristas` and
/// `vacios`.  From the ranking on, no stage clears or replaces a label.
pub struct Corrida {
    datos: Vec<Negocio>,
    etapa: Etapa,
    pares: Vec<(usize, usize)>,
}

impl Corrida {
    /// What holds of a run at every moment: handles are positions; a fresh run holds
    /// fresh entities; from the measuring on every entity has its score; nothing is
    /// ranked or labelled before the ranking, and from the ranking on every seed is
    /// labelled; the edges that await their weights join entities of the run.
    #[verifier::type_invariant]
    spec fn inv(self) -> bool {
        &&& bien_formado(self.datos@)
        &&& self.etapa is Sembrado ==> self.datos@ == frescos(self.datos@.len())
        &&& !(self.etapa is Sembrado) ==> medidos(self.datos@)
        &&& self.etapa is Medido ==> sin_rankear(self.datos@)
        &&& !(self.etapa is Sembrado) && !(self.etapa is Medido) ==> semillas_etiquetadas(self.datos@)
        &&& self.etapa is Triangulado ==> forall|k: int|
            0 <= k < self.pares@.len() ==> (#[trigger] self.pares@[k]).0 < self.datos@.len()
                && self.pares@[k].1 < self.datos@.len()
    }

    /// The arena of the run.
    pub closed spec fn datos(self) -> Seq<Negocio> {
        self.datos@
    }

    /// The stage the run is at.
    pub closed spec fn etapa(self) -> Etapa {
        self.etapa
    }

    /// The edges that await their weights.
    pub closed spec fn pares(self) -> Seq<(usize, usize)> {
        self.pares@
    }

    /// Starts a run over `registros` fresh entities.
    pub fn nueva(registros: usize) -> (c: Corrida)
        ensures
            c.etapa() == Etapa::Sembrado,
            c.datos() == frescos(registros as nat),
    {
        Corrida { datos: sembrar(registros), etapa: Etapa::Sembrado, pares: Vec::new() }
    }

    /// The entities of the run, as they stand.
    pub fn negocios(&self) -> (datos: &Vec<Negocio>)
        ensures
            datos@ == self.datos(),
    {
        &self.datos
    }

    /// The stage the run is at.
    pub fn etapa_actual(&self) -> (etapa: Etapa)
        ensures
            etapa == self.etapa(),
    {
        self.etapa
    }

    /// Takes the density scores, one for each entity, and stores them.
    ///
    /// Returns, for each entity, how many of its nearest neighbours the ranking asks for.
    pub fn medir(self, medidas: &Vec<Acces>) -> (r: Result<(Corrida, Vec<usize>), Fallo>)
        ensures
            r is Ok <==> self.etapa() == Etapa::Sembrado && medible(self.datos(), medidas@),
            r matches Ok((c, tamanos)) ==> {
                &&& c.etapa() == Etapa::Medido
                &&& c.datos() == medido(self.datos(), medidas@)
                &&& tamanos.len() == medidas.len()
                &&& forall|i: int|
                    0 <= i < tamanos.len() ==> (#[trigger] tamanos[i]) == alcance(medidas[i].piso as nat)
            },
            r matches Err(f) ==> f == rechazo(self.etapa(), Etapa::Sembrado),
    {
        proof {
            use_type_invariant(&self);
        }
        let Corrida { datos, etapa, pares } = self;
        let mut datos = datos;
        match etapa {
            Etapa::Sembrado => {},
            _ => {
                return Err(Fallo::FueraDeOrden);
            },
        }
        if medidas.len() != datos.len() {
            return Err(Fallo::Malformada);
        }
        let mut tamanos: Vec<usize> = Vec::new();
        let mut i: usize = 0;
        while i < medidas.len()
            invariant
                i <= medidas.len(),
                tamanos.len() == i,
                etapa == self.etapa(),
                etapa is Sembrado,
                forall|k: int|
                    0 <= k < i ==> (#[trigger] tamanos[k]) == alcance(medidas[k].piso as nat),
            decreases medidas.len() - i,
        {
            match vecindad(medidas[i].piso) {
                Some(k) => {
                    tamanos.push(k);
                },
                None => {
                    return Err(Fallo::Malformada);
                },
            }
            i = i + 1;
        }
        let ghost previos = datos@;
        accesibilidad(medidas, &mut datos);
        proof {
            assert forall|k: int| 0 <= k < medidas.len() implies alcance(
                (#[trigger] medidas[k]).piso as nat,
            ) <= usize::MAX by {
                assert(tamanos[k] == alcance(medidas[k].piso as nat));
            }
            assert forall|k: int| 0 <= k < datos.len() implies (#[trigger] datos[k]).indice == k by {
                assert(previos[k].indice == k);
            }
        }
        Ok((Corrida { datos, etapa: Etapa::Medido, pares }, tamanos))
    }

    /// Takes the neighbours of every entity and ranks the entities.
    ///
    /// `distemp[i]` answers the request for the neighbours of the entity at `i`.
    /// Returns the number of clusters seeded.  After this exactly the seeds are
    /// labelled.
    pub fn rankear(self, distemp: &Vec<Vec<usize>>) -> (r: Result<(Corrida, usize), Fallo>)
        ensures
            r is Ok <==> self.etapa() == Etapa::Medido && rankeable(self.datos(), distemp@),
            r matches Ok((c, clusters)) ==> {
                &&& c.etapa() == Etapa::Rankeado
                &&& rankeado(self.datos(), distemp@, c.datos())
                &&& clusters == semillas_en(c.datos())
                &&& forall|i: int|
                    0 <= i < c.datos().len() ==> ((#[trigger] c.datos()[i]).cluster is Some
                        <==> c.datos()[i].es_semilla())
            },
            r matches Err(f) ==> f == rechazo(self.etapa(), Etapa::Medido),
    {
        proof {
            use_type_invariant(&self);
        }
        let Corrida { datos, etapa, pares } = self;
        let mut datos = datos;
        match etapa {
            Etapa::Medido => {},
            _ => {
                return Err(Fallo::FueraDeOrden);
            },
        }
        if !puede_rankear(distemp, &datos) {
            return Err(Fallo::Malformada);
        }
        let ghost previos = datos@;
        let clusters = rankeo(distemp, &mut datos);
        proof {
            assert forall|k: int| 0 <= k < datos.len() implies (#[trigger] datos[k]).indice == k
                && datos[k].acces is Some by {
                assert(previos[k].indice == k);
                assert(previos[k].acces is Some);
            }
            assert forall|k: int| 0 <= k < datos.len() implies ((#[trigger] datos[k]).cluster is Some
                <==> datos[k].es_semilla()) by {
                assert(previos[k].cluster is None);
            }
        }
        Ok((Corrida { datos, etapa: Etapa::Rankeado, pares }, clusters))
    }

    /// The seeds, in storage order: the entities whose neighbours the growth asks for.
    pub fn centros(&self) -> (centros: Vec<usize>)
        ensures
            centros@ == todas_semillas(self.datos()),
    {
        centros(&self.datos)
    }

    /// Takes the neighbours of every seed, with their distances, and grows the seeds.
    ///
    /// `vecindarios[j]` answers the request for the neighbours of the `j`-th seed.
    /// An entity that no seed reaches is left as it was; any other unlabelled entity
    /// takes the label of the first seed that reaches it.
    pub fn crecer(self, vecindarios: &Vec<Vec<Vecino>>) -> (r: Result<(Corrida, Censo), Fallo>)
        ensures
            r is Ok <==> self.etapa() == Etapa::Rankeado && cultivable(self.datos(), vecindarios@),
            r matches Ok((c, censo)) ==> {
                &&& c.etapa() == Etapa::Crecido
                &&& c.datos() == jardin(
                    self.datos(),
                    todas_semillas(self.datos()),
                    vecindarios@,
                    vecindarios.len() as int,
                )
                &&& conserva(self.datos(), c.datos())
                &&& es_censo(c.datos(), censo)
                &&& forall|i: int|
                    0 <= i < self.datos().len() && fuera_de_alcance(
                        vecindarios@,
                        vecindarios.len() as int,
                        i,
                    ) ==> (#[trigger] c.datos()[i]) == self.datos()[i]
                &&& forall|i: int, j: int|
                    #![trigger c.datos()[i], vecindarios[j]]
                    0 <= i < self.datos().len() && self.datos()[i].cluster is None && 0 <= j
                        < vecindarios.len() && alcanza(vecindarios[j]@, i) && fuera_de_alcance(
                        vecindarios@,
                        j,
                        i,
                    ) ==> c.datos()[i].cluster == self.datos()[todas_semillas(
                        self.datos(),
                    )[j] as int].cluster
            },
            r matches Err(f) ==> f == rechazo(self.etapa(), Etapa::Rankeado),
    {
        proof {
            use_type_invariant(&self);
        }
        let Corrida { datos, etapa, pares } = self;
        let mut datos = datos;
        match etapa {
            Etapa::Rankeado => {},
            _ => {
                return Err(Fallo::FueraDeOrden);
            },
        }
        if !puede_crecer(vecindarios, &datos) {
            return Err(Fallo::Malformada);
        }
        let ghost previos = datos@;
        proof {
            assert(previos.len() == datos.len());
        }
        jardinero(vecindarios, &mut datos);
        let censo = censar(&datos);
        proof {
            let semillas = todas_semillas(previos);
            let largo = vecindarios.len() as int;
            assert(centros_etiquetados(previos, semillas) && forall|k: int|
                0 <= k < semillas.len() ==> (#[trigger] semillas[k]) < previos.len()) by {
                semillas_en_orden(previos, previos.len() as int);
                assert forall|j: int| 0 <= j < semillas.len() implies previos[(
                #[trigger] semillas[j]) as int].cluster is Some by {
                    assert(previos[semillas[j] as int].es_semilla());
                }
            }
            conserva_bien_formado(previos, datos@);
            lemma_conserva_estado(previos, datos@);
        }
        Ok((Corrida { datos, etapa: Etapa::Crecido, pares }, censo))
    }

    /// Takes the triangulation of the entities and lists its edges.
    pub fn triangular(self, triangles: &Vec<usize>, halfedges: &Vec<usize>) -> (r: Result<
        Corrida,
        Fallo,
    >)
        ensures
            r is Ok <==> self.etapa() == Etapa::Crecido && es_malla(
                triangles@,
                halfedges@,
                self.datos().len(),
            ),
            r matches Ok(c) ==> {
                &&& c.etapa() == Etapa::Triangulado
                &&& c.datos() == self.datos()
                &&& c.pares() == aristas_de(triangles@, halfedges@)
            },
            r matches Err(f) ==> f == rechazo(self.etapa(), Etapa::Crecido),
    {
        proof {
            use_type_invariant(&self);
        }
        let Corrida { datos, etapa, pares } = self;
        match etapa {
            Etapa::Crecido => {},
            _ => {
                return Err(Fallo::FueraDeOrden);
            },
        }
        if !puede_triangular(triangles, halfedges, datos.len()) {
            return Err(Fallo::Malformada);
        }
        let pares = aristas(triangles, halfedges);
        proof {
            aristas_en_rango(triangles@, halfedges@, datos@.len());
        }
        Ok(Corrida { datos, etapa: Etapa::Triangulado, pares })
    }

    /// The edges whose lengths the merger asks for, in the order of their weights.
    pub fn aristas(&self) -> (pares: &Vec<(usize, usize)>)
        ensures
            pares@ == self.pares(),
    {
        &self.pares
    }

    /// Takes the length of every edge and spreads the labels over the edges.
    ///
    /// `pesos[k]` answers the request for the length of the edge `k`.
    pub fn tejer(self, pesos: &Vec<u64>) -> (r: Result<(Corrida, Censo), Fallo>)
        ensures
            r is Ok <==> self.etapa() == Etapa::Triangulado && pesos.len() == self.pares().len(),
            r matches Ok((c, censo)) ==> {
                &&& c.etapa() == Etapa::Tejido
                &&& c.datos() == tejido(self.datos(), pesadas(self.pares(), pesos@))
                &&& sin_cruces(c.datos(), pesadas(self.pares(), pesos@))
                &&& conserva(self.datos(), c.datos())
                &&& es_censo(c.datos(), censo)
            },
            r matches Err(f) ==> f == rechazo(self.etapa(), Etapa::Triangulado),
    {
        proof {
            use_type_invariant(&self);
        }
        let Corrida { datos, etapa, pares } = self;
        let mut datos = datos;
        match etapa {
            Etapa::Triangulado => {},
            _ => {
                return Err(Fallo::FueraDeOrden);
            },
        }
        if pesos.len() != pares.len() {
            return Err(Fallo::Malformada);
        }
        let edges = pesar(&pares, pesos);
        let ghost previos = datos@;
        tejedor(&edges, &mut datos);
        let censo = censar(&datos);
        proof {
            conserva_bien_formado(previos, datos@);
            lemma_conserva_estado(previos, datos@);
        }
        Ok((Corrida { datos, etapa: Etapa::Tejido, pares }, censo))
    }

    /// The entities without a label, in storage order: those whose neighbours the gap
    /// filling asks for.
    pub fn vacios(&self) -> (vacios: Vec<usize>)
        ensures
            vacios@ == sueltos(self.datos()),
    {
        splitter(&self.datos).1
    }

    /// Takes the neighbours of every entity without a label and fills the gaps.
    ///
    /// `vecindarios[j]` answers the request for the neighbours of the `j`-th such
    /// entity.  This ends the run.
    pub fn resolver(self, vecindarios: &Vec<Vec<usize>>) -> (r: Result<(Corrida, Censo), Fallo>)
        ensures
            r is Ok <==> self.etapa() == Etapa::Tejido && vecindarios.len() == sueltos(
                self.datos(),
            ).len() && listas_validas(vecindarios@, self.datos().len()),
            r matches Ok((c, censo)) ==> {
                &&& c.etapa() == Etapa::Resuelto
                &&& c.datos() == relleno(
                    self.datos(),
                    sueltos(self.datos()),
                    vecindarios@,
                    vecindarios.len() as int,
                )
                &&& conserva(self.datos(), c.datos())
                &&& es_censo(c.datos(), censo)
            },
            r matches Err(f) ==> f == rechazo(self.etapa(), Etapa::Tejido),
    {
        proof {
            use_type_invariant(&self);
        }
        let Corrida { datos, etapa, pares } = self;
        let mut datos = datos;
        match etapa {
            Etapa::Tejido => {},
            _ => {
                return Err(Fallo::FueraDeOrden);
            },
        }
        let vacios = splitter(&datos).1;
        proof {
            sueltos_son_posiciones(datos@);
        }
        if !puede_resolver(&vacios, vecindarios, &datos) {
            return Err(Fallo::Malformada);
        }
        let ghost previos = datos@;
        totems(&vacios, vecindarios, &mut datos);
        let censo = censar(&datos);
        proof {
            conserva_bien_formado(previos, datos@);
            lemma_conserva_estado(previos, datos@);
        }
        Ok((Corrida { datos, etapa: Etapa::Resuelto, pares }, censo))
    }
}

/// A stage that only labels unlabelled entities keeps the scores, and keeps the seeds
/// labelled.
proof fn lemma_conserva_estado(antes: Seq<Negocio>, despues: Seq<Negocio>)
    requires
        conserva(antes, despues),
        medidos(antes),
        semillas_etiquetadas(antes),
    ensures
        medidos(despues),
        semillas_etiquetadas(despues),
{
    assert forall|i: int| 0 <= i < despues.len() implies (#[trigger] despues[i]).acces is Some && (
    despues[i].es_semilla() ==> despues[i].cluster is Some) by {
        assert(antes[i].acces is Some);
        assert(antes[i].es_semilla() ==> antes[i].cluster is Some);
    }
}

} // verus!
