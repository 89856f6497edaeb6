//! The entity arena: one record per geolocated entity, addressed by its position.

use vstd::prelude::*;

verus! {

/// Density score of an entity, held as the two readings the clustering rules take of it.
///
/// The score is a non-negative real number.  `piso` is its whole part.  `orden` is an
/// integer that orders scores exactly as the numbers themselves are ordered: a greater
/// score has a greater `orden`, and equal scores have equal `orden`.
#[derive(Clone, Copy, Debug, PartialEq, Eq, Structural)]
pub struct Acces {
    pub piso: usize,
    pub orden: u64,
}

/// One entity.  `indice` is its handle, which is also its position in the arena.
/// The three optional fields start out unset and are each written by one stage.
#[derive(Clone, Copy, Debug, PartialEq, Eq, Structural)]
pub struct Negocio {
    pub indice: usize,
    pub acces: Option<Acces>,
    pub ranking: Option<usize>,
    pub cluster: Option<usize>,
}

impl Negocio {
    /// An entity with nothing computed yet.
    pub open spec fn virgen(indice: usize) -> Negocio {
        Negocio { indice, acces: None, ranking: None, cluster: None }
    }

    /// The same entity carrying the label `cluster`.
    pub open spec fn con_cluster(self, cluster: Option<usize>) -> Negocio {
        Negocio { cluster, ..self }
    }

    /// Whether the entity is a cluster seed: a local density peak.
    pub open spec fn es_semilla(self) -> bool {
        self.ranking == Some(1usize)
    }

    /// Makes the entity of handle `indice`, with nothing computed yet.
    pub fn nuevo(indice: usize) -> (n: Negocio)
        ensures
            n == Negocio::virgen(indice),
    {
        Negocio { indice, acces: None, ranking: None, cluster: None }
    }
}

/// The optional field `campo` is set, and to the number `valor`.
pub open spec fn vale(campo: Option<usize>, valor: nat) -> bool {
    campo matches Some(v) && v == valor
}

/// Every handle is the position of its entity.
pub open spec fn bien_formado(datos: Seq<Negocio>) -> bool {
    forall|i: int| 0 <= i < datos.len() ==> (#[trigger] datos[i]).indice == i
}

/// `despues` is `antes` with some unlabelled entities labelled and nothing else
/// changed: no label of `antes` is cleared or replaced, and handles, scores and ranks
/// are as they were.
pub open spec fn conserva(antes: Seq<Negocio>, despues: Seq<Negocio>) -> bool {
    &&& despues.len() == antes.len()
    &&& forall|i: int|
        #![trigger despues[i]]
        #![trigger antes[i]]
        0 <= i < antes.len() ==> {
            &&& despues[i] == antes[i].con_cluster(despues[i].cluster)
            &&& antes[i].cluster is Some ==> despues[i].cluster == antes[i].cluster
        }
}

/// A stage that only labels unlabelled entities keeps a well-formed arena well-formed.
pub proof fn conserva_bien_formado(antes: Seq<Negocio>, despues: Seq<Negocio>)
    requires
        conserva(antes, despues),
        bien_formado(antes),
    ensures
        bien_formado(despues),
{
    assert forall|i: int| 0 <= i < despues.len() implies (#[trigger] despues[i]).indice == i by {
        assert(antes[i].indice == i);
    }
}

/// Number of entities that carry no label.
pub open spec fn pendientes(datos: Seq<Negocio>) -> nat {
    datos.filter(|n: Negocio| n.cluster is None).len()
}

/// Labels are never lost along a run of stages: if each stage only labels unlabelled
/// entities, so does the run as a whole.
pub proof fn conserva_encadena(a: Seq<Negocio>, b: Seq<Negocio>, c: Seq<Negocio>)
    requires
        conserva(a, b),
        conserva(b, c),
    ensures
        conserva(a, c),
{
    assert forall|i: int| 0 <= i < a.len() implies {
        &&& c[i] == a[i].con_cluster(c[i].cluster)
        &&& a[i].cluster is Some ==> c[i].cluster == a[i].cluster
    } by {
        assert(b[i] == a[i].con_cluster(b[i].cluster));
        assert(c[i] == b[i].con_cluster(c[i].cluster));
    }
}

/// There are never more unlabelled entities than entities.
pub proof fn pendientes_acotado(datos: Seq<Negocio>)
    ensures
        pendientes(datos) <= datos.len(),
{
    datos.lemma_filter_len(|n: Negocio| n.cluster is None);
}

/// Labelling one unlabelled entity leaves one fewer without a label.
pub proof fn pendientes_al_etiquetar(datos: Seq<Negocio>, i: int, cluster: usize)
    requires
        0 <= i < datos.len(),
        datos[i].cluster is None,
    ensures
        pendientes(datos.update(i, datos[i].con_cluster(Some(cluster)))) + 1 == pendientes(datos),
    decreases datos.len(),
{
    let suelto = |n: Negocio| n.cluster is None;
    let nuevo = datos.update(i, datos[i].con_cluster(Some(cluster)));
    let resto = datos.drop_last();
    assert(datos =~= resto.push(datos.last()));
    resto.lemma_filter_len_push(suelto, datos.last());
    if i == datos.len() - 1 {
        assert(nuevo =~= resto.push(nuevo.last()));
        resto.lemma_filter_len_push(suelto, nuevo.last());
    } else {
        pendientes_al_etiquetar(resto, i, cluster);
        let resto_nuevo = resto.update(i, resto[i].con_cluster(Some(cluster)));
        assert(nuevo =~= resto_nuevo.push(datos.last()));
        resto_nuevo.lemma_filter_len_push(suelto, datos.last());
    }
}

/// Appends a fresh entity to the arena and returns its handle.
pub fn alta(vector_datos: &mut Vec<Negocio>) -> (indice: usize)
    ensures
        indice == old(vector_datos).len(),
        final(vector_datos)@ == old(vector_datos)@.push(Negocio::virgen(indice)),
        bien_formado(old(vector_datos)@) ==> bien_formado(final(vector_datos)@),
{
    let indice = vector_datos.len();
    vector_datos.push(Negocio::nuevo(indice));
    indice
}

/// The handles of the labelled entities, in storage order.
pub open spec fn asignados(datos: Seq<Negocio>) -> Seq<usize> {
    datos.filter(|n: Negocio| n.cluster is Some).map_values(|n: Negocio| n.indice)
}

/// The handles of the entities without a label, in storage order.
pub open spec fn sueltos(datos: Seq<Negocio>) -> Seq<usize> {
    datos.filter(|n: Negocio| n.cluster is None).map_values(|n: Negocio| n.indice)
}

/// The two parts of the split hold every entity once between them.  In a well-formed
/// arena the second part lists, in ascending order, exactly the positions of the
/// entities without a label.
pub proof fn sueltos_son_posiciones(datos: Seq<Negocio>)
    requires
        bien_formado(datos),
    ensures
        asignados(datos).len() + sueltos(datos).len() == datos.len(),
        sueltos(datos).len() == pendientes(datos),
        forall|k: int|
            0 <= k < sueltos(datos).len() ==> {
                let i = #[trigger] sueltos(datos)[k];
                i < datos.len() && datos[i as int].cluster is None
            },
        forall|k: int, l: int|
            0 <= k < l < sueltos(datos).len() ==> sueltos(datos)[k] < sueltos(datos)[l],
        forall|i: int|
            0 <= i < datos.len() && datos[i].cluster is None ==> sueltos(datos).contains(
                i as usize,
            ),
    decreases datos.len(),
{
    let con = |n: Negocio| n.cluster is Some;
    let sin = |n: Negocio| n.cluster is None;
    if datos.len() == 0 {
        datos.lemma_filter_len(con);
        datos.lemma_filter_len(sin);
    } else {
        let resto = datos.drop_last();
        let ultimo = datos.last();
        sueltos_son_posiciones(resto);
        assert(datos =~= resto.push(ultimo));
        resto.lemma_filter_push(ultimo, con);
        resto.lemma_filter_push(ultimo, sin);
        let antes = sueltos(resto);
        let todos = sueltos(datos);
        if ultimo.cluster is None {
            assert(todos =~= antes.push(ultimo.indice));
            assert(todos[antes.len() as int] == ultimo.indice);
        } else {
            assert(todos =~= antes);
        }
        assert forall|i: int| 0 <= i < datos.len() && datos[i].cluster is None implies todos.contains(
            i as usize,
        ) by {
            if i < datos.len() - 1 {
                assert(resto[i].cluster is None);
                let k = choose|k: int| 0 <= k < antes.len() && antes[k] == i as usize;
                assert(todos[k] == i as usize);
            }
        }
    }
}

/// How many entities carry a label and how many carry none.
#[derive(Clone, Copy, Debug, PartialEq, Eq, Structural)]
pub struct Censo {
    pub asignados: usize,
    pub sueltos: usize,
}

/// `censo` counts the two parts of the arena `datos`.
pub open spec fn es_censo(datos: Seq<Negocio>, censo: Censo) -> bool {
    censo.asignados == asignados(datos).len() && censo.sueltos == sueltos(datos).len()
}

/// Splits the handles of the arena, in storage order, into those of the labelled
/// entities and those of the entities without a label.
pub fn splitter(vector_datos: &Vec<Negocio>) -> (partes: (Vec<usize>, Vec<usize>))
    ensures
        partes.0@ == asignados(vector_datos@),
        partes.1@ == sueltos(vector_datos@),
{
    let mut con: Vec<usize> = Vec::new();
    let mut sin: Vec<usize> = Vec::new();
    let mut pos: usize = 0;
    while pos < vector_datos.len()
        invariant
            pos <= vector_datos.len(),
            con@ == asignados(vector_datos@.take(pos as int)),
            sin@ == sueltos(vector_datos@.take(pos as int)),
        decreases vector_datos.len() - pos,
    {
        let negocio = vector_datos[pos];
        proof {
            let tramo = vector_datos@.take(pos as int);
            vector_datos@.lemma_take_succ_push(pos as int);
            tramo.lemma_filter_push(negocio, |n: Negocio| n.cluster is Some);
            tramo.lemma_filter_push(negocio, |n: Negocio| n.cluster is None);
            assert(asignados(tramo.push(negocio)) =~= if negocio.cluster is Some {
                asignados(tramo).push(negocio.indice)
            } else {
                asignados(tramo)
            });
            assert(sueltos(tramo.push(negocio)) =~= if negocio.cluster is None {
                sueltos(tramo).push(negocio.indice)
            } else {
                sueltos(tramo)
            });
        }
        match negocio.cluster {
            Some(_) => {
                con.push(negocio.indice);
            },
            None => {
                sin.push(negocio.indice);
            },
        }
        pos = pos + 1;
    }
    proof {
        vector_datos@.lemma_take_len();
    }
    (con, sin)
}

/// Counts the labelled entities and the entities without a label.
pub fn censar(vector_datos: &Vec<Negocio>) -> (censo: Censo)
    ensures
        es_censo(vector_datos@, censo),
{
    let (asignados, sueltos) = splitter(vector_datos);
    Censo { asignados: asignados.len(), sueltos: sueltos.len() }
}

/// `n` entities with nothing computed yet, each at the position of its handle.
pub open spec fn frescos(n: nat) -> Seq<Negocio> {
    Seq::new(n, |i: int| Negocio::virgen(i as usize))
}

/// Builds an arena of `registros` fresh entities.
pub fn sembrar(registros: usize) -> (vector_datos: Vec<Negocio>)
    ensures
        vector_datos@ == frescos(registros as nat),
        bien_formado(vector_datos@),
{
    let mut vector_datos: Vec<Negocio> = Vec::new();
    while vector_datos.len() < registros
        invariant
            vector_datos.len() <= registros,
            vector_datos@ == frescos(vector_datos.len() as nat),
        decreases registros - vector_datos.len(),
    {
        alta(&mut vector_datos);
        proof {
            assert(vector_datos@ =~= frescos(vector_datos.len() as nat));
        }
    }
    vector_datos
}

} // verus!
