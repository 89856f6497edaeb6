//! Peak ranking: the local density rank of every entity, and the seeding of clusters
//! at the entities of rank one.

use vstd::prelude::*;
use crate::consulta::{en_rango, lista_en_rango, primeros, tope};
use crate::negocio::{vale, Negocio};

verus! {

/// Every entity has its density score.
pub open spec fn medidos(datos: Seq<Negocio>) -> bool {
    forall|i: int| 0 <= i < datos.len() ==> (#[trigger] datos[i]).acces is Some
}

/// The arena and the neighbour lists can be ranked: there is one list for each
/// entity, every entity has its score, every list names entities of the arena, and
/// no list is so long that its rank could not be counted.
pub open spec fn rankeable(datos: Seq<Negocio>, distemp: Seq<Vec<usize>>) -> bool {
    &&& distemp.len() == datos.len()
    &&& medidos(datos)
    &&& forall|i: int|
        0 <= i < distemp.len() ==> en_rango((#[trigger] distemp[i])@, datos.len())
            && distemp[i].len() < usize::MAX
}

/// Decides `rankeable`.
pub fn puede_rankear(distemp: &Vec<Vec<usize>>, vector_datos: &Vec<Negocio>) -> (ok: bool)
    ensures
        ok == rankeable(vector_datos@, distemp@),
{
    if distemp.len() != vector_datos.len() {
        return false;
    }
    let mut i: usize = 0;
    while i < vector_datos.len()
        invariant
            i <= vector_datos.len(),
            distemp.len() == vector_datos.len(),
            forall|k: int| 0 <= k < i ==> (#[trigger] vector_datos[k]).acces is Some,
            forall|k: int|
                0 <= k < i ==> en_rango((#[trigger] distemp[k])@, vector_datos@.len())
                    && distemp[k].len() < usize::MAX,
        decreases vector_datos.len() - i,
    {
        if vector_datos[i].acces.is_none() {
            return false;
        }
        if distemp[i].len() == usize::MAX || !lista_en_rango(&distemp[i], vector_datos.len()) {
            return false;
        }
        i = i + 1;
    }
    true
}

/// How many neighbours the rank of an entity is taken among, when its score has the
/// whole part `piso`: three per unit of score, and fifty more.
pub open spec fn alcance(piso: nat) -> nat {
    piso * 3 + 50
}

/// The neighbours among which the entity at `pos` is ranked: the first
/// `alcance` of those listed for it.
pub open spec fn vecinos_de(datos: Seq<Negocio>, pos: int, lista: Seq<usize>) -> Seq<usize> {
    primeros(lista, alcance(datos[pos].acces->0.piso as nat))
}

/// Computes `alcance`.  `None` when that many cannot be counted on this machine.
pub fn vecindad(piso: usize) -> (k: Option<usize>)
    ensures
        k is Some <==> alcance(piso as nat) <= usize::MAX,
        k matches Some(v) ==> v == alcance(piso as nat),
{
    match piso.checked_mul(3) {
        Some(triple) => triple.checked_add(50),
        None => None,
    }
}

/// The neighbours of the entity at `pos` that are strictly denser than it.
pub open spec fn mas_denso(datos: Seq<Negocio>, pos: int) -> spec_fn(usize) -> bool {
    |n: usize| datos[n as int].acces->0.orden > datos[pos].acces->0.orden
}

/// The neighbours exactly as dense as the entity at `pos` that carry a rank by the
/// time the rank of `pos` is computed.  The pass runs in storage order over the arena
/// `datos` as it was before the pass, so these are the ones stored before `pos` and
/// the ones that came ranked into the pass.
pub open spec fn empate_previo(datos: Seq<Negocio>, pos: int) -> spec_fn(usize) -> bool {
    |n: usize|
        datos[n as int].acces->0.orden == datos[pos].acces->0.orden && (n < pos
            || datos[n as int].ranking is Some)
}

/// The rank of the entity at `pos` among the neighbours `vecinos`: one, plus one for
/// each denser neighbour, plus one for each equally dense neighbour ranked before it.
/// A handle that occurs twice in `vecinos` counts twice.
pub open spec fn rango(datos: Seq<Negocio>, pos: int, vecinos: Seq<usize>) -> nat {
    1 + vecinos.filter(mas_denso(datos, pos)).len() + vecinos.filter(
        empate_previo(datos, pos),
    ).len()
}

/// Number of seeds among `datos`.
pub open spec fn semillas_en(datos: Seq<Negocio>) -> nat {
    datos.filter(|n: Negocio| n.es_semilla()).len()
}

/// `ahora` is the arena `antes` after ranking against the lists `distemp`: every
/// entity has its rank; the seeds are labelled 0, 1, 2, ... in storage order and no
/// other label is touched; handles and scores are as they were.
pub open spec fn rankeado(antes: Seq<Negocio>, distemp: Seq<Vec<usize>>, ahora: Seq<Negocio>) -> bool {
    &&& ahora.len() == antes.len()
    &&& forall|i: int|
        0 <= i < antes.len() ==> {
            &&& (#[trigger] ahora[i]).indice == antes[i].indice
            &&& ahora[i].acces == antes[i].acces
            &&& vale(ahora[i].ranking, rango(antes, i, vecinos_de(antes, i, distemp[i]@)))
            &&& ahora[i].es_semilla() ==> vale(ahora[i].cluster, semillas_en(ahora.take(i)))
            &&& !ahora[i].es_semilla() ==> ahora[i].cluster == antes[i].cluster
        }
}

/// The positions of the seeds among the first `hasta` entities, in storage order.
pub open spec fn semillas(datos: Seq<Negocio>, hasta: int) -> Seq<usize>
    decreases hasta,
{
    if hasta <= 0 {
        Seq::empty()
    } else if datos[hasta - 1].es_semilla() {
        semillas(datos, hasta - 1).push((hasta - 1) as usize)
    } else {
        semillas(datos, hasta - 1)
    }
}

/// The positions of all seeds, in storage order.
pub open spec fn todas_semillas(datos: Seq<Negocio>) -> Seq<usize> {
    semillas(datos, datos.len() as int)
}

/// `semillas` lists exactly the seeds below `hasta`, each once and in ascending order.
pub proof fn semillas_en_orden(datos: Seq<Negocio>, hasta: int)
    requires
        0 <= hasta <= datos.len() <= usize::MAX,
    ensures
        forall|k: int|
            0 <= k < semillas(datos, hasta).len() ==> {
                let s = #[trigger] semillas(datos, hasta)[k];
                s < hasta && datos[s as int].es_semilla()
            },
        forall|k: int, l: int|
            0 <= k < l < semillas(datos, hasta).len() ==> semillas(datos, hasta)[k] < semillas(
                datos,
                hasta,
            )[l],
        forall|i: int|
            0 <= i < hasta && datos[i].es_semilla() ==> semillas(datos, hasta).contains(i as usize),
        semillas(datos, hasta).len() <= hasta,
    decreases hasta,
{
    if hasta > 0 {
        semillas_en_orden(datos, hasta - 1);
        let previas = semillas(datos, hasta - 1);
        let todas = semillas(datos, hasta);
        if datos[hasta - 1].es_semilla() {
            assert(todas[previas.len() as int] == hasta - 1);
        }
        assert forall|i: int| 0 <= i < hasta && datos[i].es_semilla() implies todas.contains(
            i as usize,
        ) by {
            if i < hasta - 1 {
                let k = choose|k: int| 0 <= k < previas.len() && previas[k] == i as usize;
                assert(todas[k] == i as usize);
            }
        }
    }
}

/// There are as many seed positions below `hasta` as seeds among the first `hasta`
/// entities, and the seed that is `k`-th in storage order has `k` seeds before it.
pub proof fn semillas_contadas(datos: Seq<Negocio>, hasta: int)
    requires
        0 <= hasta <= datos.len() <= usize::MAX,
    ensures
        semillas(datos, hasta).len() == semillas_en(datos.take(hasta)),
        forall|k: int|
            0 <= k < semillas(datos, hasta).len() ==> semillas_en(
                datos.take((#[trigger] semillas(datos, hasta)[k]) as int),
            ) == k,
    decreases hasta,
{
    let semilla = |n: Negocio| n.es_semilla();
    if hasta == 0 {
        datos.take(0).lemma_filter_len(semilla);
    } else {
        semillas_contadas(datos, hasta - 1);
        datos.lemma_take_succ_push(hasta - 1);
        datos.take(hasta - 1).lemma_filter_len_push(semilla, datos[hasta - 1]);
        let previas = semillas(datos, hasta - 1);
        let todas = semillas(datos, hasta);
        assert forall|k: int| 0 <= k < todas.len() implies semillas_en(
            datos.take((#[trigger] todas[k]) as int),
        ) == k by {
            if k < previas.len() {
                assert(todas[k] == previas[k]);
            } else {
                assert(todas[k] as int == hasta - 1);
            }
        }
    }
}

/// Ranking labels the seeds 0, 1, 2, ... in storage order: the seed that is `k`-th
/// in storage order carries the label `k`.
pub proof fn semillas_numeradas(antes: Seq<Negocio>, distemp: Seq<Vec<usize>>, ahora: Seq<Negocio>)
    requires
        rankeado(antes, distemp, ahora),
        ahora.len() <= usize::MAX,
    ensures
        todas_semillas(ahora).len() == semillas_en(ahora),
        forall|k: int|
            0 <= k < todas_semillas(ahora).len() ==> vale(
                ahora[(#[trigger] todas_semillas(ahora)[k]) as int].cluster,
                k as nat,
            ),
{
    semillas_contadas(ahora, ahora.len() as int);
    semillas_en_orden(ahora, ahora.len() as int);
    ahora.lemma_take_len();
    assert forall|k: int| 0 <= k < todas_semillas(ahora).len() implies vale(
        ahora[(#[trigger] todas_semillas(ahora)[k]) as int].cluster,
        k as nat,
    ) by {
        let p = todas_semillas(ahora)[k] as int;
        assert(ahora[p].es_semilla());
        assert(semillas_en(ahora.take(p)) == k);
    }
}

/// Computes the rank of the entity at `pos` from the arena as it stands, in which the
/// entities ranked so far are those that `previos`, the arena before the pass, says.
fn rango_de(
    vector_datos: &Vec<Negocio>,
    pos: usize,
    vecinos: &Vec<usize>,
    Ghost(previos): Ghost<Seq<Negocio>>,
) -> (ranking: usize)
    requires
        pos < vector_datos.len(),
        previos.len() == vector_datos.len(),
        medidos(vector_datos@),
        en_rango(vecinos@, vector_datos@.len()),
        vecinos.len() < usize::MAX,
        forall|n: int|
            0 <= n < previos.len() ==> (#[trigger] vector_datos[n]).acces == previos[n].acces,
        forall|n: int|
            0 <= n < previos.len() ==> ((#[trigger] vector_datos[n]).ranking is Some <==> (n < pos
                || previos[n].ranking is Some)),
    ensures
        ranking == rango(previos, pos as int, vecinos_de(previos, pos as int, vecinos@)),
{
    let propio: u64 = vector_datos[pos].acces.unwrap().orden;
    let limite: usize = match vecindad(vector_datos[pos].acces.unwrap().piso) {
        Some(k) => tope(vecinos.len(), k),
        None => vecinos.len(),
    };
    let mut ranking: usize = 1;
    let mut j: usize = 0;
    while j < limite
        invariant
            j <= limite <= vecinos.len(),
            vecinos.len() < usize::MAX,
            pos < vector_datos.len(),
            previos.len() == vector_datos.len(),
            medidos(vector_datos@),
            en_rango(vecinos@, vector_datos@.len()),
            propio == previos[pos as int].acces->0.orden,
            forall|n: int|
                0 <= n < previos.len() ==> (#[trigger] vector_datos[n]).acces == previos[n].acces,
            forall|n: int|
                0 <= n < previos.len() ==> ((#[trigger] vector_datos[n]).ranking is Some <==> (n
                    < pos || previos[n].ranking is Some)),
            ranking == rango(previos, pos as int, vecinos@.take(j as int)),
            ranking <= j + 1,
        decreases limite - j,
    {
        let inda: usize = vecinos[j];
        let ajeno: u64 = vector_datos[inda].acces.unwrap().orden;
        proof {
            let antes = vecinos@.take(j as int);
            vecinos@.lemma_take_succ_push(j as int);
            antes.lemma_filter_len_push(mas_denso(previos, pos as int), inda);
            antes.lemma_filter_len_push(empate_previo(previos, pos as int), inda);
        }
        if propio < ajeno {
            ranking = ranking + 1;
        }
        if propio == ajeno {
            match vector_datos[inda].ranking {
                Some(_) => {
                    ranking = ranking + 1;
                },
                None => {},
            }
        }
        j = j + 1;
    }
    proof {
        vecinos@.lemma_take_len();
    }
    ranking
}

/// Ranks every entity and seeds the clusters.
///
/// `distemp[i]` lists the neighbours of the entity at `i` from the nearest on; of a
/// list longer than the neighbourhood of its entity only that many are read.  Ranks
/// are written in storage order, each from the scores of all entities and from which
/// entities were ranked before it.  Then the entities of rank one, the seeds, are
/// labelled 0, 1, 2, ... in storage order; the number of seeds is returned.  Scores
/// and handles are left as they were, and so is the label of every entity that is no
/// seed.
pub fn rankeo(distemp: &Vec<Vec<usize>>, vector_datos: &mut Vec<Negocio>) -> (clusters: usize)
    requires
        rankeable(old(vector_datos)@, distemp@),
    ensures
        rankeado(old(vector_datos)@, distemp@, final(vector_datos)@),
        clusters == semillas_en(final(vector_datos)@),
        clusters == todas_semillas(final(vector_datos)@).len(),
        forall|k: int|
            0 <= k < clusters ==> vale(
                final(vector_datos)[(#[trigger] todas_semillas(final(vector_datos)@)[k]) as int].cluster,
                k as nat,
            ),
{
    let ghost previos = vector_datos@;
    let total = vector_datos.len();
    let mut pos: usize = 0;
    while pos < total
        invariant
            pos <= total,
            total == previos.len(),
            vector_datos.len() == total,
            rankeable(previos, distemp@),
            forall|i: int|
                0 <= i < total ==> {
                    &&& (#[trigger] vector_datos[i]).indice == previos[i].indice
                    &&& vector_datos[i].acces == previos[i].acces
                    &&& vector_datos[i].cluster == previos[i].cluster
                },
            forall|i: int|
                0 <= i < pos ==> vale(
                    (#[trigger] vector_datos[i]).ranking,
                    rango(previos, i, vecinos_de(previos, i, distemp[i]@)),
                ),
            forall|i: int| pos <= i < total ==> (#[trigger] vector_datos[i]).ranking == previos[i].ranking,
        decreases total - pos,
    {
        let ranking = rango_de(vector_datos, pos, &distemp[pos], Ghost(previos));
        vector_datos[pos].ranking = Some(ranking);
        pos = pos + 1;
    }
    let mut clust_count: usize = 0;
    let mut i: usize = 0;
    while i < total
        invariant
            i <= total,
            total == previos.len(),
            vector_datos.len() == total,
            clust_count == semillas_en(vector_datos@.take(i as int)),
            clust_count <= i,
            forall|k: int|
                0 <= k < total ==> {
                    &&& (#[trigger] vector_datos[k]).indice == previos[k].indice
                    &&& vector_datos[k].acces == previos[k].acces
                    &&& vale(
                        vector_datos[k].ranking,
                        rango(previos, k, vecinos_de(previos, k, distemp[k]@)),
                    )
                },
            forall|k: int|
                0 <= k < i ==> {
                    &&& (#[trigger] vector_datos[k]).es_semilla() ==> vale(
                        vector_datos[k].cluster,
                        semillas_en(vector_datos@.take(k)),
                    )
                    &&& !vector_datos[k].es_semilla() ==> vector_datos[k].cluster == previos[k].cluster
                },
            forall|k: int| i <= k < total ==> (#[trigger] vector_datos[k]).cluster == previos[k].cluster,
        decreases total - i,
    {
        let ghost antes = vector_datos@;
        match vector_datos[i].ranking {
            Some(1) => {
                vector_datos[i].cluster = Some(clust_count);
                proof {
                    assert(vector_datos@.take(i as int) =~= antes.take(i as int));
                    vector_datos@.lemma_take_succ_push(i as int);
                    vector_datos@.take(i as int).lemma_filter_len_push(
                        |n: Negocio| n.es_semilla(),
                        vector_datos[i as int],
                    );
                    assert forall|k: int| 0 <= k < i implies vector_datos@.take(k) =~= antes.take(
                        k,
                    ) by {}
                }
                clust_count = clust_count + 1;
            },
            _ => {
                proof {
                    vector_datos@.lemma_take_succ_push(i as int);
                    vector_datos@.take(i as int).lemma_filter_len_push(
                        |n: Negocio| n.es_semilla(),
                        vector_datos[i as int],
                    );
                }
            },
        }
        i = i + 1;
    }
    proof {
        vector_datos@.lemma_take_len();
        semillas_numeradas(previos, distemp@, vector_datos@);
    }
    clust_count
}

} // verus!
