//! Gap filling: an entity that no earlier stage reached takes the label of its nearest
//! labelled neighbour.

use vstd::prelude::*;
use crate::negocio::{conserva, conserva_encadena, Negocio};
use crate::consulta::{
    en_rango, lista_en_rango, listas_en_rango, listas_validas, primeros, tope, VECINOS,
};

verus! {

/// The entities `vacios` of the arena can be resolved against `vecindarios`: there is
/// one list of neighbours for each of them, and every handle is one of the arena.
pub open spec fn resoluble(
    datos: Seq<Negocio>,
    vacios: Seq<usize>,
    vecindarios: Seq<Vec<usize>>,
) -> bool {
    &&& vecindarios.len() == vacios.len()
    &&& en_rango(vacios, datos.len())
    &&& listas_validas(vecindarios, datos.len())
}

/// Decides `resoluble`.
pub fn puede_resolver(
    vacios: &Vec<usize>,
    vecindarios: &Vec<Vec<usize>>,
    vector_datos: &Vec<Negocio>,
) -> (ok: bool)
    ensures
        ok == resoluble(vector_datos@, vacios@, vecindarios@),
{
    vecindarios.len() == vacios.len() && lista_en_rango(vacios, vector_datos.len())
        && listas_en_rango(vecindarios, vector_datos.len())
}

/// The label of the first labelled entity among `candidatos`, if there is one.
pub open spec fn primer_cluster(datos: Seq<Negocio>, candidatos: Seq<usize>) -> Option<usize>
    decreases candidatos.len(),
{
    if candidatos.len() == 0 {
        None
    } else if datos[candidatos[0] as int].cluster is Some {
        datos[candidatos[0] as int].cluster
    } else {
        primer_cluster(datos, candidatos.drop_first())
    }
}

/// `primer_cluster` is the label of the earliest labelled candidate; it is unset
/// exactly when no candidate is labelled.
pub proof fn primer_cluster_es_primero(datos: Seq<Negocio>, candidatos: Seq<usize>)
    ensures
        primer_cluster(datos, candidatos) is None <==> forall|t: int|
            0 <= t < candidatos.len() ==> datos[(#[trigger] candidatos[t]) as int].cluster is None,
        forall|t: int|
            0 <= t < candidatos.len() && datos[(#[trigger] candidatos[t]) as int].cluster is Some && (
            forall|s: int| 0 <= s < t ==> datos[(#[trigger] candidatos[s]) as int].cluster is None)
                ==> primer_cluster(datos, candidatos) == datos[candidatos[t] as int].cluster,
    decreases candidatos.len(),
{
    if candidatos.len() > 0 {
        let resto = candidatos.drop_first();
        primer_cluster_es_primero(datos, resto);
        if datos[candidatos[0] as int].cluster is Some {
            assert forall|t: int|
                0 <= t < candidatos.len() && datos[(#[trigger] candidatos[t]) as int].cluster is Some
                    && (forall|s: int|
                    0 <= s < t ==> datos[(#[trigger] candidatos[s]) as int].cluster is None) implies t
                == 0 by {
                if t > 0 {
                    assert(datos[candidatos[0] as int].cluster is None);
                }
            }
        } else {
            assert forall|t: int| 0 <= t < resto.len() implies resto[t] == candidatos[t + 1] by {}
            if primer_cluster(datos, resto) is None {
                assert forall|t: int| 0 <= t < candidatos.len() implies datos[(
                #[trigger] candidatos[t]) as int].cluster is None by {
                    if t > 0 {
                        assert(resto[t - 1] == candidatos[t]);
                    }
                }
            } else {
                let u = choose|u: int|
                    0 <= u < resto.len() && datos[(#[trigger] resto[u]) as int].cluster is Some;
                assert(candidatos[u + 1] == resto[u]);
            }
            assert forall|t: int|
                0 <= t < candidatos.len() && datos[(#[trigger] candidatos[t]) as int].cluster is Some
                    && (forall|s: int|
                    0 <= s < t ==> datos[(#[trigger] candidatos[s]) as int].cluster is None) implies primer_cluster(
                datos,
                candidatos,
            ) == datos[candidatos[t] as int].cluster by {
                assert(t > 0);
                assert(resto[t - 1] == candidatos[t]);
                assert forall|s: int| 0 <= s < t - 1 implies datos[(
                #[trigger] resto[s]) as int].cluster is None by {
                    assert(candidatos[s + 1] == resto[s]);
                }
            }
        }
    }
}

/// The arena after the entity at `vacio` has been resolved against `candidatos`, its
/// neighbours from the nearest on: if it has no label it takes the first label found
/// among the first `VECINOS` of them, and stays without one if there is none.
pub open spec fn resuelto(datos: Seq<Negocio>, vacio: int, candidatos: Seq<usize>) -> Seq<Negocio> {
    if datos[vacio].cluster is None {
        datos.update(
            vacio,
            datos[vacio].con_cluster(primer_cluster(datos, primeros(candidatos, VECINOS as nat))),
        )
    } else {
        datos
    }
}

/// The arena after the first `hasta` of `vacios` have been resolved, one after the
/// other, `vacios[j]` against `vecindarios[j]`.
pub open spec fn relleno(
    datos: Seq<Negocio>,
    vacios: Seq<usize>,
    vecindarios: Seq<Vec<usize>>,
    hasta: int,
) -> Seq<Negocio>
    decreases hasta,
{
    if hasta <= 0 {
        datos
    } else {
        resuelto(
            relleno(datos, vacios, vecindarios, hasta - 1),
            vacios[hasta - 1] as int,
            vecindarios[hasta - 1]@,
        )
    }
}

/// Gap filling only labels unlabelled entities, and only those it was asked to resolve.
pub proof fn relleno_conserva(
    datos: Seq<Negocio>,
    vacios: Seq<usize>,
    vecindarios: Seq<Vec<usize>>,
    hasta: int,
)
    requires
        0 <= hasta <= vacios.len() == vecindarios.len(),
        en_rango(vacios, datos.len()),
    ensures
        conserva(datos, relleno(datos, vacios, vecindarios, hasta)),
        forall|i: int|
            0 <= i < datos.len() && !vacios.take(hasta).contains(i as usize) ==> (#[trigger] relleno(
                datos,
                vacios,
                vecindarios,
                hasta,
            )[i]) == datos[i],
    decreases hasta,
{
    if hasta > 0 {
        relleno_conserva(datos, vacios, vecindarios, hasta - 1);
        let antes = relleno(datos, vacios, vecindarios, hasta - 1);
        let ahora = relleno(datos, vacios, vecindarios, hasta);
        assert(vacios[hasta - 1] < datos.len());
        assert(conserva(antes, ahora));
        conserva_encadena(datos, antes, ahora);
        assert forall|i: int|
            0 <= i < datos.len() && !vacios.take(hasta).contains(i as usize) implies ahora[i]
            == datos[i] by {
            assert(vacios.take(hasta)[hasta - 1] == vacios[hasta - 1]);
            let corta = vacios.take(hasta - 1);
            if corta.contains(i as usize) {
                let k = choose|k: int| 0 <= k < corta.len() && corta[k] == i as usize;
                assert(vacios.take(hasta)[k] == i as usize);
            }
        }
    }
}

/// Resolves one entity: unless it is labelled already, its first `VECINOS` neighbours
/// are scanned from the nearest on and the first label found is copied to it.
pub fn resolver(vector_datos: &mut Vec<Negocio>, vacio: usize, candidatos: &Vec<usize>)
    requires
        vacio < old(vector_datos).len(),
        en_rango(candidatos@, old(vector_datos)@.len()),
    ensures
        final(vector_datos)@ == resuelto(old(vector_datos)@, vacio as int, candidatos@),
{
    if vector_datos[vacio].cluster.is_some() {
        return ;
    }
    let ghost previos = vector_datos@;
    let ghost cercanos = primeros(candidatos@, VECINOS as nat);
    let limite = tope(candidatos.len(), VECINOS);
    let mut t: usize = 0;
    proof {
        assert(cercanos.skip(0) =~= cercanos);
    }
    while t < limite
        invariant
            t <= limite <= candidatos.len(),
            limite == cercanos.len(),
            cercanos == primeros(candidatos@, VECINOS as nat),
            vacio < previos.len(),
            vector_datos@ == previos,
            previos == old(vector_datos)@,
            previos[vacio as int].cluster is None,
            en_rango(candidatos@, previos.len()),
            primer_cluster(previos, cercanos) == primer_cluster(previos, cercanos.skip(t as int)),
        decreases limite - t,
    {
        let ghost cola = cercanos.skip(t as int);
        proof {
            assert(cola[0] == candidatos[t as int]);
            assert(cola.drop_first() =~= cercanos.skip(t + 1));
        }
        match vector_datos[candidatos[t]].cluster {
            Some(clusta) => {
                vector_datos[vacio].cluster = Some(clusta);
                proof {
                    assert(primer_cluster(previos, cola) == Some(clusta));
                    assert(vector_datos@ =~= resuelto(previos, vacio as int, candidatos@));
                }
                return ;
            },
            None => {},
        }
        t = t + 1;
    }
    proof {
        assert(cercanos.skip(t as int).len() == 0);
        assert(vector_datos@ =~= resuelto(previos, vacio as int, candidatos@));
    }
}

/// Resolves the entities `vacios` in the order given.
///
/// `vecindarios[j]` lists the neighbours of `vacios[j]` from the nearest on.  The
/// entities are resolved one after the other, so a label given early in the pass can
/// be the one found for a later entity.  An entity none of whose first `VECINOS`
/// neighbours is labelled stays without a label.
pub fn totems(vacios: &Vec<usize>, vecindarios: &Vec<Vec<usize>>, vector_datos: &mut Vec<Negocio>)
    requires
        resoluble(old(vector_datos)@, vacios@, vecindarios@),
    ensures
        final(vector_datos)@ == relleno(
            old(vector_datos)@,
            vacios@,
            vecindarios@,
            vacios.len() as int,
        ),
        conserva(old(vector_datos)@, final(vector_datos)@),
        forall|i: int|
            0 <= i < old(vector_datos).len() && !vacios@.contains(i as usize) ==> (
            #[trigger] final(vector_datos)[i]) == old(vector_datos)[i],
{
    let ghost previos = vector_datos@;
    let mut j: usize = 0;
    while j < vacios.len()
        invariant
            j <= vacios.len(),
            vecindarios.len() == vacios.len(),
            vector_datos.len() == previos.len(),
            en_rango(vacios@, previos.len()),
            listas_validas(vecindarios@, previos.len()),
            vector_datos@ == relleno(previos, vacios@, vecindarios@, j as int),
        decreases vacios.len() - j,
    {
        resolver(vector_datos, vacios[j], &vecindarios[j]);
        j = j + 1;
    }
    proof {
        relleno_conserva(previos, vacios@, vecindarios@, vacios.len() as int);
        vacios@.lemma_take_len();
    }
}

} // verus!
