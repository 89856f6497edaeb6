//! The merger: labels spread over the edges of a planar graph, always across the
//! cheapest edge that joins a labelled entity to an unlabelled one.

use vstd::prelude::*;
use crate::negocio::{
    conserva, conserva_encadena, pendientes, pendientes_acotado, pendientes_al_etiquetar, Negocio,
};

verus! {

/// An undirected edge between the entities `p` and `q`.  `distancia` orders edges by
/// the distance between their ends: the longer edge has the greater `distancia`.
#[derive(Clone, Copy, Debug, PartialEq, Eq, Structural)]
pub struct Edge {
    pub p: usize,
    pub q: usize,
    pub distancia: u64,
}

/// Both ends of every edge are among `n` entities.
pub open spec fn aristas_validas(edges: Seq<Edge>, n: nat) -> bool {
    forall|k: int| 0 <= k < edges.len() ==> (#[trigger] edges[k]).p < n && edges[k].q < n
}

/// The edges between the pairs `pares`, the edge at `k` weighing `pesos[k]`.
pub open spec fn pesadas(pares: Seq<(usize, usize)>, pesos: Seq<u64>) -> Seq<Edge> {
    Seq::new(pares.len(), |k: int| Edge { p: pares[k].0, q: pares[k].1, distancia: pesos[k] })
}

/// Gives every pair its weight.
pub fn pesar(pares: &Vec<(usize, usize)>, pesos: &Vec<u64>) -> (edges: Vec<Edge>)
    requires
        pesos.len() == pares.len(),
    ensures
        edges@ == pesadas(pares@, pesos@),
{
    let mut edges: Vec<Edge> = Vec::new();
    let mut k: usize = 0;
    while k < pares.len()
        invariant
            k <= pares.len(),
            pesos.len() == pares.len(),
            edges@ == pesadas(pares@.take(k as int), pesos@),
        decreases pares.len() - k,
    {
        let par = pares[k];
        edges.push(Edge { p: par.0, q: par.1, distancia: pesos[k] });
        proof {
            assert(edges@ =~= pesadas(pares@.take(k + 1), pesos@));
        }
        k = k + 1;
    }
    proof {
        pares@.lemma_take_len();
    }
    edges
}

/// Decides `aristas_validas`.
pub fn puede_tejer(edges: &Vec<Edge>, vector_datos: &Vec<Negocio>) -> (ok: bool)
    ensures
        ok == aristas_validas(edges@, vector_datos@.len()),
{
    let n = vector_datos.len();
    let mut k: usize = 0;
    while k < edges.len()
        invariant
            k <= edges.len(),
            n == vector_datos@.len(),
            forall|j: int| 0 <= j < k ==> (#[trigger] edges[j]).p < n && edges[j].q < n,
        decreases edges.len() - k,
    {
        if edges[k].p >= n || edges[k].q >= n {
            return false;
        }
        k = k + 1;
    }
    true
}

/// Exactly one end of `e` is labelled.
pub open spec fn cruza(datos: Seq<Negocio>, e: Edge) -> bool {
    (datos[e.p as int].cluster is Some) != (datos[e.q as int].cluster is Some)
}

/// No edge has exactly one labelled end.
pub open spec fn sin_cruces(datos: Seq<Negocio>, edges: Seq<Edge>) -> bool {
    forall|k: int| 0 <= k < edges.len() ==> !cruza(datos, #[trigger] edges[k])
}

/// The edge at `k` is the one that fires next: it crosses, no crossing edge is
/// cheaper, and every crossing edge before it is dearer.
pub open spec fn dispara(datos: Seq<Negocio>, edges: Seq<Edge>, k: int) -> bool {
    &&& 0 <= k < edges.len()
    &&& cruza(datos, edges[k])
    &&& forall|j: int|
        0 <= j < edges.len() && cruza(datos, #[trigger] edges[j]) ==> edges[k].distancia
            <= edges[j].distancia
    &&& forall|j: int|
        0 <= j < k && cruza(datos, #[trigger] edges[j]) ==> edges[k].distancia < edges[j].distancia
}

/// The position of the edge that fires next, if any edge crosses.
pub open spec fn elegida(datos: Seq<Negocio>, edges: Seq<Edge>) -> Option<int> {
    if exists|k: int| dispara(datos, edges, k) {
        Some(choose|k: int| dispara(datos, edges, k))
    } else {
        None
    }
}

/// The arena after `e` has fired: the label at its labelled end is copied to the other.
pub open spec fn propagado(datos: Seq<Negocio>, e: Edge) -> Seq<Negocio> {
    if datos[e.p as int].cluster is Some {
        datos.update(e.q as int, datos[e.q as int].con_cluster(datos[e.p as int].cluster))
    } else {
        datos.update(e.p as int, datos[e.p as int].con_cluster(datos[e.q as int].cluster))
    }
}

/// One round of the merger: the edge that fires next fires; with none, nothing changes.
pub open spec fn paso(datos: Seq<Negocio>, edges: Seq<Edge>) -> Seq<Negocio> {
    match elegida(datos, edges) {
        Some(k) => propagado(datos, edges[k]),
        None => datos,
    }
}

/// The arena after `n` rounds of the merger.
pub open spec fn pasos(datos: Seq<Negocio>, edges: Seq<Edge>, n: nat) -> Seq<Negocio>
    decreases n,
{
    if n == 0 {
        datos
    } else {
        paso(pasos(datos, edges, (n - 1) as nat), edges)
    }
}

/// Of two crossing edges of equal weight the earlier fires first, so at most one
/// position can be the one that fires next.
pub proof fn dispara_unica(datos: Seq<Negocio>, edges: Seq<Edge>, k: int, otra: int)
    requires
        dispara(datos, edges, k),
        dispara(datos, edges, otra),
    ensures
        k == otra,
{
    if k < otra {
        assert(cruza(datos, edges[k]));
    } else if otra < k {
        assert(cruza(datos, edges[otra]));
    }
}

/// Some edge fires exactly when some edge crosses.
pub proof fn elegida_si_cruza(datos: Seq<Negocio>, edges: Seq<Edge>)
    ensures
        elegida(datos, edges) is None <==> sin_cruces(datos, edges),
        elegida(datos, edges) matches Some(k) ==> dispara(datos, edges, k),
{
    if sin_cruces(datos, edges) {
        assert forall|k: int| !dispara(datos, edges, k) by {
            if 0 <= k < edges.len() {
                assert(!cruza(datos, edges[k]));
            }
        }
    } else {
        let c = choose|c: int| 0 <= c < edges.len() && cruza(datos, #[trigger] edges[c]);
        primera_minima(datos, edges, edges.len() as int, c);
        assert(edges.take(edges.len() as int) =~= edges);
    }
}

/// Among the edges before `hasta`, of which the one at `c` crosses, one is the first
/// cheapest crossing edge.
proof fn primera_minima(datos: Seq<Negocio>, edges: Seq<Edge>, hasta: int, c: int)
    requires
        0 <= c < hasta <= edges.len(),
        cruza(datos, edges[c]),
    ensures
        exists|k: int| dispara(datos, edges.take(hasta), k),
    decreases hasta,
{
    let tramo = edges.take(hasta);
    let ultima = hasta - 1;
    if exists|b: int| 0 <= b < ultima && cruza(datos, #[trigger] edges[b]) {
        let b = choose|b: int| 0 <= b < ultima && cruza(datos, #[trigger] edges[b]);
        primera_minima(datos, edges, ultima, b);
        let previa = edges.take(ultima);
        let k = choose|k: int| dispara(datos, previa, k);
        assert forall|j: int| 0 <= j < ultima implies previa[j] == tramo[j] by {}
        if cruza(datos, edges[ultima]) && edges[ultima].distancia < previa[k].distancia {
            assert forall|j: int| 0 <= j < ultima && cruza(datos, #[trigger] tramo[j]) implies tramo[ultima].distancia
                < tramo[j].distancia by {
                assert(cruza(datos, previa[j]));
            }
            assert(dispara(datos, tramo, ultima));
        } else {
            assert forall|j: int| 0 <= j < hasta && cruza(datos, #[trigger] tramo[j]) implies tramo[k].distancia
                <= tramo[j].distancia by {
                if j < ultima {
                    assert(cruza(datos, previa[j]));
                }
            }
            assert forall|j: int| 0 <= j < k && cruza(datos, #[trigger] tramo[j]) implies tramo[k].distancia
                < tramo[j].distancia by {
                assert(cruza(datos, previa[j]));
            }
            assert(dispara(datos, tramo, k));
        }
    } else {
        assert(c == ultima);
        assert forall|j: int| 0 <= j < hasta && cruza(datos, #[trigger] tramo[j]) implies tramo[ultima].distancia
            <= tramo[j].distancia by {
            if j < ultima {
                assert(cruza(datos, edges[j]));
            }
        }
        assert forall|j: int| 0 <= j < ultima && cruza(datos, #[trigger] tramo[j]) implies tramo[ultima].distancia
            < tramo[j].distancia by {
            assert(cruza(datos, edges[j]));
        }
        assert(dispara(datos, tramo, ultima));
    }
}

/// Finds the edge that fires next: among the edges with exactly one labelled end, the
/// cheapest, and of several equally cheap the first.  `None` when no edge crosses.
pub fn buscador(vector_datos: &Vec<Negocio>, edges: &Vec<Edge>) -> (minimo: Option<Edge>)
    requires
        aristas_validas(edges@, vector_datos@.len()),
    ensures
        minimo is None <==> sin_cruces(vector_datos@, edges@),
        minimo matches Some(e) ==> exists|k: int|
            dispara(vector_datos@, edges@, k) && e == edges[k],
        minimo == match elegida(vector_datos@, edges@) {
            Some(k) => Some(edges[k]),
            None => None,
        },
{
    let mut minimo: Option<Edge> = None;
    let ghost mut lugar: int = 0;
    let mut k: usize = 0;
    while k < edges.len()
        invariant
            k <= edges.len(),
            aristas_validas(edges@, vector_datos@.len()),
            minimo is None ==> sin_cruces(vector_datos@, edges@.take(k as int)),
            minimo matches Some(e) ==> dispara(vector_datos@, edges@.take(k as int), lugar) && e
                == edges[lugar],
        decreases edges.len() - k,
    {
        let edge = edges[k];
        let cond_1 = vector_datos[edge.p].cluster.is_some();
        let cond_2 = vector_datos[edge.q].cluster.is_some();
        let ghost tramo = edges@.take(k as int);
        let ghost largo = edges@.take(k + 1);
        proof {
            assert forall|j: int| 0 <= j < k implies tramo[j] == largo[j] by {}
            assert(largo[k as int] == edge);
        }
        if cond_1 != cond_2 {
            let mejora = match minimo {
                Some(actual) => edge.distancia < actual.distancia,
                None => true,
            };
            if mejora {
                proof {
                    assert forall|j: int| 0 <= j < k && cruza(vector_datos@, #[trigger] largo[j]) implies edge.distancia
                        < largo[j].distancia by {
                        assert(cruza(vector_datos@, tramo[j]));
                    }
                    assert forall|j: int|
                        0 <= j < k + 1 && cruza(vector_datos@, #[trigger] largo[j]) implies edge.distancia
                        <= largo[j].distancia by {
                        if j < k {
                            assert(cruza(vector_datos@, tramo[j]));
                        }
                    }
                    lugar = k as int;
                }
                minimo = Some(edge);
            } else {
                proof {
                    assert forall|j: int|
                        0 <= j < k + 1 && cruza(vector_datos@, #[trigger] largo[j]) implies largo[lugar].distancia
                        <= largo[j].distancia by {
                        if j < k {
                            assert(cruza(vector_datos@, tramo[j]));
                        }
                    }
                    assert forall|j: int|
                        0 <= j < lugar && cruza(vector_datos@, #[trigger] largo[j]) implies largo[lugar].distancia
                        < largo[j].distancia by {
                        assert(cruza(vector_datos@, tramo[j]));
                    }
                }
            }
        } else {
            proof {
                if minimo is Some {
                    assert forall|j: int|
                        0 <= j < k + 1 && cruza(vector_datos@, #[trigger] largo[j]) implies largo[lugar].distancia
                        <= largo[j].distancia by {
                        if j < k {
                            assert(cruza(vector_datos@, tramo[j]));
                        }
                    }
                    assert forall|j: int|
                        0 <= j < lugar && cruza(vector_datos@, #[trigger] largo[j]) implies largo[lugar].distancia
                        < largo[j].distancia by {
                        assert(cruza(vector_datos@, tramo[j]));
                    }
                } else {
                    assert forall|j: int| 0 <= j < k + 1 implies !cruza(
                        vector_datos@,
                        #[trigger] largo[j],
                    ) by {
                        if j < k {
                            assert(!cruza(vector_datos@, tramo[j]));
                        }
                    }
                }
            }
        }
        k = k + 1;
    }
    proof {
        edges@.lemma_take_len();
        elegida_si_cruza(vector_datos@, edges@);
        if minimo is Some {
            assert(cruza(vector_datos@, edges[lugar]));
            dispara_unica(vector_datos@, edges@, lugar, elegida(vector_datos@, edges@)->0);
        }
    }
    minimo
}

/// The arena once the merger has come to rest.  Every round that changes anything
/// labels one entity, so there are never more such rounds than unlabelled entities;
/// rounds beyond the last of them change nothing.
pub open spec fn tejido(datos: Seq<Negocio>, edges: Seq<Edge>) -> Seq<Negocio> {
    pasos(datos, edges, pendientes(datos))
}

/// Rounds after the merger has come to rest change nothing.
pub proof fn pasos_de_sobra(datos: Seq<Negocio>, edges: Seq<Edge>, n: nat, m: nat)
    requires
        n <= m,
        sin_cruces(pasos(datos, edges, n), edges),
    ensures
        pasos(datos, edges, m) == pasos(datos, edges, n),
    decreases m,
{
    if n < m {
        pasos_de_sobra(datos, edges, n, (m - 1) as nat);
        elegida_si_cruza(pasos(datos, edges, n), edges);
    }
}

/// Once no edge crosses, further rounds change nothing: a second run of the merger
/// on its own result performs no propagation.
pub proof fn pasos_en_reposo(datos: Seq<Negocio>, edges: Seq<Edge>, n: nat)
    requires
        sin_cruces(datos, edges),
    ensures
        pasos(datos, edges, n) == datos,
    decreases n,
{
    if n > 0 {
        pasos_en_reposo(datos, edges, (n - 1) as nat);
        elegida_si_cruza(datos, edges);
    }
}

/// A round that fires an edge labels one entity and touches nothing else.
pub proof fn paso_etiqueta(datos: Seq<Negocio>, edges: Seq<Edge>)
    requires
        aristas_validas(edges, datos.len()),
        !sin_cruces(datos, edges),
    ensures
        conserva(datos, paso(datos, edges)),
        pendientes(paso(datos, edges)) + 1 == pendientes(datos),
{
    elegida_si_cruza(datos, edges);
    let e = edges[elegida(datos, edges)->0];
    if datos[e.p as int].cluster is Some {
        pendientes_al_etiquetar(datos, e.q as int, datos[e.p as int].cluster->0);
    } else {
        pendientes_al_etiquetar(datos, e.p as int, datos[e.q as int].cluster->0);
    }
}

/// `n + 1` rounds are one round followed by `n` rounds.
pub proof fn pasos_desde_el_primero(datos: Seq<Negocio>, edges: Seq<Edge>, n: nat)
    ensures
        pasos(datos, edges, n + 1) == pasos(paso(datos, edges), edges, n),
    decreases n,
{
    if n > 0 {
        pasos_desde_el_primero(datos, edges, (n - 1) as nat);
    } else {
        assert(pasos(datos, edges, 1) == paso(pasos(datos, edges, 0), edges));
    }
}

/// The merger comes to rest, and only labels unlabelled entities on its way.
pub proof fn tejido_en_reposo(datos: Seq<Negocio>, edges: Seq<Edge>)
    requires
        aristas_validas(edges, datos.len()),
    ensures
        sin_cruces(tejido(datos, edges), edges),
        conserva(datos, tejido(datos, edges)),
    decreases pendientes(datos),
{
    if sin_cruces(datos, edges) {
        pasos_en_reposo(datos, edges, pendientes(datos));
    } else {
        let sigue = paso(datos, edges);
        paso_etiqueta(datos, edges);
        tejido_en_reposo(sigue, edges);
        pasos_desde_el_primero(datos, edges, pendientes(sigue));
        conserva_encadena(datos, sigue, tejido(sigue, edges));
    }
}

/// Merging twice is merging once: a second run over the same edges finds the arena
/// at rest and leaves it as it is.
pub proof fn tejido_idempotente(datos: Seq<Negocio>, edges: Seq<Edge>)
    requires
        aristas_validas(edges, datos.len()),
    ensures
        tejido(tejido(datos, edges), edges) == tejido(datos, edges),
{
    tejido_en_reposo(datos, edges);
    pasos_en_reposo(tejido(datos, edges), edges, pendientes(tejido(datos, edges)));
}

/// Spreads labels over the edges until no edge has exactly one labelled end.
///
/// Each round scans all edges, picks the one that fires next (see [`buscador`]) and
/// copies the label of its labelled end to its other end.  The number of rounds that
/// propagated a label is returned; it is the number of entities that were labelled.
pub fn tejedor(edges: &Vec<Edge>, vector_datos: &mut Vec<Negocio>) -> (propagaciones: usize)
    requires
        aristas_validas(edges@, old(vector_datos)@.len()),
    ensures
        final(vector_datos)@ == pasos(old(vector_datos)@, edges@, propagaciones as nat),
        final(vector_datos)@ == tejido(old(vector_datos)@, edges@),
        sin_cruces(final(vector_datos)@, edges@),
        forall|m: nat|
            m < propagaciones ==> !sin_cruces(
                #[trigger] pasos(old(vector_datos)@, edges@, m),
                edges@,
            ),
        conserva(old(vector_datos)@, final(vector_datos)@),
        propagaciones + pendientes(final(vector_datos)@) == pendientes(old(vector_datos)@),
        sin_cruces(old(vector_datos)@, edges@) ==> propagaciones == 0 && final(vector_datos)@ == old(
            vector_datos,
        )@,
{
    let ghost previos = vector_datos@;
    let mut propagaciones: usize = 0;
    loop
        invariant
            vector_datos.len() == previos.len(),
            aristas_validas(edges@, previos.len()),
            vector_datos@ == pasos(previos, edges@, propagaciones as nat),
            forall|m: nat|
                m < propagaciones ==> !sin_cruces(#[trigger] pasos(previos, edges@, m), edges@),
            conserva(previos, vector_datos@),
            propagaciones + pendientes(vector_datos@) == pendientes(previos),
        ensures
            sin_cruces(vector_datos@, edges@),
        decreases pendientes(vector_datos@),
    {
        let ghost antes = vector_datos@;
        match buscador(vector_datos, edges) {
            Some(edge) => {
                proof {
                    elegida_si_cruza(antes, edges@);
                    pendientes_acotado(previos);
                }
                match vector_datos[edge.p].cluster {
                    Some(clusta) => {
                        vector_datos[edge.q].cluster = Some(clusta);
                        proof {
                            pendientes_al_etiquetar(antes, edge.q as int, clusta);
                        }
                    },
                    None => {
                        let clusta = vector_datos[edge.q].cluster;
                        vector_datos[edge.p].cluster = clusta;
                        proof {
                            pendientes_al_etiquetar(antes, edge.p as int, clusta->0);
                        }
                    },
                }
                proof {
                    assert(vector_datos@ =~= propagado(antes, edge));
                    assert(conserva(antes, vector_datos@));
                    conserva_encadena(previos, antes, vector_datos@);
                    assert(!sin_cruces(pasos(previos, edges@, propagaciones as nat), edges@));
                }
                propagaciones = propagaciones + 1;
            },
            None => {
                break ;
            },
        }
    }
    proof {
        if sin_cruces(previos, edges@) && propagaciones > 0 {
            assert(!sin_cruces(pasos(previos, edges@, 0), edges@));
        }
        pasos_de_sobra(previos, edges@, propagaciones as nat, pendientes(previos));
    }
    propagaciones
}

} // verus!
