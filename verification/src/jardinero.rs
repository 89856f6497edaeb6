//! Region growth: every seed hands its label to the unlabelled entities near it.

use vstd::prelude::*;
use crate::consulta::{tope, VECINOS};
use crate::negocio::{conserva, conserva_encadena, Negocio};
use crate::rankeo::{semillas, semillas_en_orden, todas_semillas};

verus! {

/// One answer of a neighbour query: the entity `indice`, at the distance `distancia`.
///
/// A distance is held as the bit pattern of its binary64 value.  Distances are never
/// negative, and on such values the patterns are ordered as the numbers are.
#[derive(Clone, Copy, Debug, PartialEq, Eq, Structural)]
pub struct Vecino {
    pub distancia: u64,
    pub indice: usize,
}

/// The growth radius, 500 units, as a distance pattern.
pub const RADIO: u64 = 0x407F_4000_0000_0000;

/// `RADIO` stands for 500: its exponent field is 1031, which scales the 53-bit
/// significand by 2^(1031 - 1075) = 2^-44, and its significand is 500 * 2^44.
pub proof fn radio_son_500()
    ensures
        RADIO / 0x10_0000_0000_0000 == 1031,
        0x10_0000_0000_0000 + RADIO % 0x10_0000_0000_0000 == 500 * 0x1000_0000_0000,
{
}

/// Every answer in `lista` names one of `n` entities.
pub open spec fn vecinos_validos(lista: Seq<Vecino>, n: nat) -> bool {
    forall|t: int| 0 <= t < lista.len() ==> (#[trigger] lista[t]).indice < n
}

/// Every list names entities among `n` only.
pub open spec fn vecindarios_validos(listas: Seq<Vec<Vecino>>, n: nat) -> bool {
    forall|j: int| 0 <= j < listas.len() ==> vecinos_validos((#[trigger] listas[j])@, n)
}

/// Collects the seeds, the entities of rank one, in storage order.
pub fn centros(vector_datos: &Vec<Negocio>) -> (centros: Vec<usize>)
    ensures
        centros@ == todas_semillas(vector_datos@),
{
    let mut centros: Vec<usize> = Vec::new();
    let mut pos: usize = 0;
    while pos < vector_datos.len()
        invariant
            pos <= vector_datos.len(),
            centros@ == semillas(vector_datos@, pos as int),
        decreases vector_datos.len() - pos,
    {
        match vector_datos[pos].ranking {
            Some(1) => {
                centros.push(pos);
            },
            _ => {},
        }
        pos = pos + 1;
    }
    centros
}

/// The arena and the answers can be grown: there is one list of answers for each
/// seed, and every answer names an entity of the arena.
pub open spec fn cultivable(datos: Seq<Negocio>, vecindarios: Seq<Vec<Vecino>>) -> bool {
    &&& vecindarios.len() == todas_semillas(datos).len()
    &&& vecindarios_validos(vecindarios, datos.len())
}

/// Decides `vecinos_validos`.
pub fn vecinos_en_rango(lista: &Vec<Vecino>, n: usize) -> (ok: bool)
    ensures
        ok == vecinos_validos(lista@, n as nat),
{
    let mut t: usize = 0;
    while t < lista.len()
        invariant
            t <= lista.len(),
            forall|s: int| 0 <= s < t ==> (#[trigger] lista[s]).indice < n,
        decreases lista.len() - t,
    {
        if lista[t].indice >= n {
            return false;
        }
        t = t + 1;
    }
    true
}

/// Decides `cultivable`.
pub fn puede_crecer(vecindarios: &Vec<Vec<Vecino>>, vector_datos: &Vec<Negocio>) -> (ok: bool)
    ensures
        ok == cultivable(vector_datos@, vecindarios@),
{
    let centros = centros(vector_datos);
    if vecindarios.len() != centros.len() {
        return false;
    }
    let mut j: usize = 0;
    while j < vecindarios.len()
        invariant
            j <= vecindarios.len(),
            forall|k: int|
                0 <= k < j ==> vecinos_validos((#[trigger] vecindarios[k])@, vector_datos@.len()),
        decreases vecindarios.len() - j,
    {
        if !vecinos_en_rango(&vecindarios[j], vector_datos.len()) {
            return false;
        }
        j = j + 1;
    }
    true
}

/// Among the first `VECINOS` answers of `candidatos`, one within the growth radius
/// names the entity `i`.
pub open spec fn alcanza(candidatos: Seq<Vecino>, i: int) -> bool {
    exists|t: int|
        0 <= t < candidatos.len() && t < VECINOS && (#[trigger] candidatos[t]).indice == i
            && candidatos[t].distancia <= RADIO
}

/// The arena after the seed at `centro` has grown over the answers `candidatos`:
/// every unlabelled entity that they reach takes the label of the seed.
pub open spec fn crecido(datos: Seq<Negocio>, centro: int, candidatos: Seq<Vecino>) -> Seq<
    Negocio,
> {
    Seq::new(
        datos.len(),
        |i: int|
            if datos[i].cluster is None && alcanza(candidatos, i) {
                datos[i].con_cluster(datos[centro].cluster)
            } else {
                datos[i]
            },
    )
}

/// The arena after the first `hasta` seeds have grown, one after the other, the seed
/// `centros[j]` over the answers `vecindarios[j]`.
pub open spec fn jardin(
    datos: Seq<Negocio>,
    centros: Seq<usize>,
    vecindarios: Seq<Vec<Vecino>>,
    hasta: int,
) -> Seq<Negocio>
    decreases hasta,
{
    if hasta <= 0 {
        datos
    } else {
        crecido(
            jardin(datos, centros, vecindarios, hasta - 1),
            centros[hasta - 1] as int,
            vecindarios[hasta - 1]@,
        )
    }
}

/// None of the first `hasta` lists reaches the entity `i`.
pub open spec fn fuera_de_alcance(vecindarios: Seq<Vec<Vecino>>, hasta: int, i: int) -> bool {
    forall|j: int| 0 <= j < hasta ==> !alcanza((#[trigger] vecindarios[j])@, i)
}

/// Every seed among `centros` carries a label.
pub open spec fn centros_etiquetados(datos: Seq<Negocio>, centros: Seq<usize>) -> bool {
    forall|j: int| 0 <= j < centros.len() ==> datos[(#[trigger] centros[j]) as int].cluster is Some
}

/// Growth stays within the radius and only labels unlabelled entities: an entity
/// that no seed reaches is left as it was, and no label is cleared or replaced.
pub proof fn jardin_conserva(
    datos: Seq<Negocio>,
    centros: Seq<usize>,
    vecindarios: Seq<Vec<Vecino>>,
    hasta: int,
)
    requires
        0 <= hasta <= centros.len() == vecindarios.len(),
        forall|j: int| 0 <= j < centros.len() ==> (#[trigger] centros[j]) < datos.len(),
    ensures
        conserva(datos, jardin(datos, centros, vecindarios, hasta)),
        forall|i: int|
            0 <= i < datos.len() && fuera_de_alcance(vecindarios, hasta, i) ==> (#[trigger] jardin(
                datos,
                centros,
                vecindarios,
                hasta,
            )[i]) == datos[i],
    decreases hasta,
{
    if hasta > 0 {
        jardin_conserva(datos, centros, vecindarios, hasta - 1);
        let antes = jardin(datos, centros, vecindarios, hasta - 1);
        let ahora = jardin(datos, centros, vecindarios, hasta);
        assert(centros[hasta - 1] < datos.len());
        assert(conserva(antes, ahora));
        conserva_encadena(datos, antes, ahora);
        assert forall|i: int|
            0 <= i < datos.len() && fuera_de_alcance(vecindarios, hasta, i) implies ahora[i]
            == datos[i] by {
            assert(!alcanza(vecindarios[hasta - 1]@, i));
            assert(fuera_de_alcance(vecindarios, hasta - 1, i));
            assert(antes[i] == datos[i]);
        }
    }
}

/// Growth is first come, first served: where every seed carries a label, an
/// unlabelled entity takes the label of the first seed, in storage order, that reaches
/// it.
pub proof fn jardin_primero(
    datos: Seq<Negocio>,
    centros: Seq<usize>,
    vecindarios: Seq<Vec<Vecino>>,
    hasta: int,
    i: int,
    j: int,
)
    requires
        0 <= hasta <= centros.len() == vecindarios.len(),
        forall|k: int| 0 <= k < centros.len() ==> (#[trigger] centros[k]) < datos.len(),
        centros_etiquetados(datos, centros),
        0 <= i < datos.len(),
        datos[i].cluster is None,
        0 <= j < hasta,
        alcanza(vecindarios[j]@, i),
        fuera_de_alcance(vecindarios, j, i),
    ensures
        jardin(datos, centros, vecindarios, hasta)[i].cluster == datos[centros[j] as int].cluster,
    decreases hasta,
{
    let antes = jardin(datos, centros, vecindarios, hasta - 1);
    let ahora = jardin(datos, centros, vecindarios, hasta);
    let centro = centros[hasta - 1] as int;
    jardin_conserva(datos, centros, vecindarios, hasta - 1);
    assert(centros[hasta - 1] < datos.len());
    assert(datos[centros[j] as int].cluster is Some);
    if j < hasta - 1 {
        jardin_primero(datos, centros, vecindarios, hasta - 1, i, j);
        assert(antes[i].cluster is Some);
    } else {
        assert(datos[centro].cluster is Some);
        assert(antes[centro].cluster == datos[centro].cluster);
        assert(antes[i] == datos[i]);
    }
}

/// Grows one seed: among its first `VECINOS` answers, every one within the radius that
/// names an unlabelled entity gives that entity the label of the seed at `centro`.
pub fn crecer(vector_datos: &mut Vec<Negocio>, centro: usize, candidatos: &Vec<Vecino>)
    requires
        centro < old(vector_datos).len(),
        vecinos_validos(candidatos@, old(vector_datos)@.len()),
    ensures
        final(vector_datos)@ == crecido(old(vector_datos)@, centro as int, candidatos@),
{
    let ghost previos = vector_datos@;
    let limite = tope(candidatos.len(), VECINOS);
    let mut t: usize = 0;
    while t < limite
        invariant
            t <= limite <= candidatos.len(),
            limite <= VECINOS,
            limite == candidatos.len() || limite == VECINOS,
            centro < previos.len(),
            vecinos_validos(candidatos@, previos.len()),
            vector_datos@ == crecido(previos, centro as int, candidatos@.take(t as int)),
        decreases limite - t,
    {
        let candidato = candidatos[t];
        let ghost antes = vector_datos@;
        let ghost tramo = candidatos@.take(t as int);
        let ghost largo = candidatos@.take(t + 1);
        proof {
            assert(largo[t as int] == candidato);
            assert forall|i: int| alcanza(tramo, i) implies alcanza(largo, i) by {
                let s = choose|s: int|
                    0 <= s < tramo.len() && s < VECINOS && (#[trigger] tramo[s]).indice == i
                        && tramo[s].distancia <= RADIO;
                assert(largo[s] == tramo[s]);
            }
            assert forall|i: int| alcanza(largo, i) && !alcanza(tramo, i) implies i
                == candidato.indice && candidato.distancia <= RADIO by {
                let s = choose|s: int|
                    0 <= s < largo.len() && s < VECINOS && (#[trigger] largo[s]).indice == i
                        && largo[s].distancia <= RADIO;
                if s < t {
                    assert(tramo[s] == largo[s]);
                }
            }
        }
        if candidato.distancia <= RADIO {
            match vector_datos[candidato.indice].cluster {
                Some(_) => {},
                None => {
                    let clusta = vector_datos[centro].cluster;
                    vector_datos[candidato.indice].cluster = clusta;
                },
            }
        }
        proof {
            assert(vector_datos@ =~= crecido(previos, centro as int, largo));
        }
        t = t + 1;
    }
    proof {
        let leidos = candidatos@.take(limite as int);
        assert forall|i: int| alcanza(leidos, i) == alcanza(candidatos@, i) by {
            if alcanza(leidos, i) {
                let s = choose|s: int|
                    0 <= s < leidos.len() && s < VECINOS && (#[trigger] leidos[s]).indice == i
                        && leidos[s].distancia <= RADIO;
                assert(candidatos[s] == leidos[s]);
            }
            if alcanza(candidatos@, i) {
                let s = choose|s: int|
                    0 <= s < candidatos.len() && s < VECINOS && (#[trigger] candidatos[s]).indice
                        == i && candidatos[s].distancia <= RADIO;
                assert(leidos[s] == candidatos[s]);
            }
        }
        assert(vector_datos@ =~= crecido(previos, centro as int, candidatos@));
    }
}

/// Grows every seed in storage order.
///
/// `vecindarios[j]` holds the answers of the neighbour query made at the seed that is
/// `j`-th in storage order, from the nearest on.  Seeds grow one after the other, so
/// an entity within the radius of several seeds is labelled by the first of them.
pub fn jardinero(vecindarios: &Vec<Vec<Vecino>>, vector_datos: &mut Vec<Negocio>)
    requires
        cultivable(old(vector_datos)@, vecindarios@),
    ensures
        final(vector_datos)@ == jardin(
            old(vector_datos)@,
            todas_semillas(old(vector_datos)@),
            vecindarios@,
            vecindarios.len() as int,
        ),
        conserva(old(vector_datos)@, final(vector_datos)@),
        forall|i: int|
            0 <= i < old(vector_datos).len() && fuera_de_alcance(
                vecindarios@,
                vecindarios.len() as int,
                i,
            ) ==> (#[trigger] final(vector_datos)[i]) == old(vector_datos)[i],
        centros_etiquetados(old(vector_datos)@, todas_semillas(old(vector_datos)@)) ==> forall|
            i: int,
            j: int,
        |
            #![trigger final(vector_datos)[i], vecindarios[j]]
            0 <= i < old(vector_datos).len() && old(vector_datos)[i].cluster is None && 0 <= j
                < vecindarios.len() && alcanza(vecindarios[j]@, i) && fuera_de_alcance(
                vecindarios@,
                j,
                i,
            ) ==> final(vector_datos)[i].cluster == old(vector_datos)[todas_semillas(
                old(vector_datos)@,
            )[j] as int].cluster,
{
    let ghost previos = vector_datos@;
    let centros = centros(vector_datos);
    proof {
        assert(previos.len() == vector_datos.len());
        assert forall|k: int| 0 <= k < centros.len() implies (#[trigger] centros[k])
            < previos.len() by {
            semillas_en_orden(previos, previos.len() as int);
        }
    }
    let mut j: usize = 0;
    while j < centros.len()
        invariant
            j <= centros.len(),
            centros.len() == vecindarios.len(),
            centros@ == todas_semillas(previos),
            vector_datos.len() == previos.len(),
            forall|k: int| 0 <= k < centros.len() ==> (#[trigger] centros[k]) < previos.len(),
            vecindarios_validos(vecindarios@, previos.len()),
            vector_datos@ == jardin(previos, centros@, vecindarios@, j as int),
        decreases centros.len() - j,
    {
        crecer(vector_datos, centros[j], &vecindarios[j]);
        j = j + 1;
    }
    proof {
        jardin_conserva(previos, centros@, vecindarios@, centros.len() as int);
        if centros_etiquetados(previos, centros@) {
            assert forall|i: int, j: int|
                #![trigger vector_datos@[i], vecindarios[j]]
                0 <= i < previos.len() && previos[i].cluster is None && 0 <= j < vecindarios.len()
                    && alcanza(vecindarios[j]@, i) && fuera_de_alcance(
                    vecindarios@,
                    j,
                    i,
                ) implies vector_datos@[i].cluster == previos[centros[j] as int].cluster by {
                jardin_primero(previos, centros@, vecindarios@, centros.len() as int, i, j);
            }
        }
    }
}

} // verus!
