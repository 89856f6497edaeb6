//! The edges of a triangulation, each taken once, from its half-edge tables.
//!
//! A triangulation of the entities comes as two tables of equal length, three slots
//! per triangle.  Slot `e` is a half-edge: it leaves the entity `triangles[e]` and runs
//! to the entity at the next slot of the same triangle.  `halfedges[e]` is the slot of
//! the same edge seen from the neighbouring triangle, its twin, or a mark that there
//! is none, on the outer boundary.

use vstd::prelude::*;

verus! {

/// The slot that follows `e` around its triangle.
pub open spec fn siguiente(e: int) -> int {
    if e % 3 == 2 {
        e - 2
    } else {
        e + 1
    }
}

/// `delaunator::next_halfedge` returns the slot that follows `i` around its triangle:
/// `i + 1`, or `i - 2` from the third slot of a triangle.  The one slot on which the
/// sum does not fit the machine word is left out.
pub assume_specification[ delaunator::next_halfedge ](i: usize) -> (sigue: usize)
    requires
        i < usize::MAX,
    ensures
        sigue == siguiente(i as int),
;

/// `delaunator::EMPTY`, the mark that a half-edge has no twin, is the greatest value
/// of the machine word.
#[verifier::external_body]
fn sin_gemela() -> (marca: usize)
    ensures
        marca == usize::MAX,
{
    delaunator::EMPTY
}

/// The half-edge `e` owns its edge: it has no twin, or it is the later of the two.
pub open spec fn duenha(halfedges: Seq<usize>, e: int) -> bool {
    halfedges[e] == usize::MAX || e > halfedges[e]
}

/// The owning half-edges below `hasta`, in ascending order.
pub open spec fn duenhas(halfedges: Seq<usize>, hasta: int) -> Seq<int>
    decreases hasta,
{
    if hasta <= 0 {
        Seq::empty()
    } else if duenha(halfedges, hasta - 1) {
        duenhas(halfedges, hasta - 1).push(hasta - 1)
    } else {
        duenhas(halfedges, hasta - 1)
    }
}

/// The two entities that the half-edge `e` joins.
pub open spec fn extremos(triangles: Seq<usize>, e: int) -> (usize, usize) {
    (triangles[e], triangles[siguiente(e)])
}

/// `duenhas` lists exactly the owning half-edges below `hasta`, each once and in
/// ascending order.
pub proof fn duenhas_en_orden(halfedges: Seq<usize>, hasta: int)
    requires
        0 <= hasta <= halfedges.len(),
    ensures
        forall|k: int|
            0 <= k < duenhas(halfedges, hasta).len() ==> {
                let e = #[trigger] duenhas(halfedges, hasta)[k];
                0 <= e < hasta && duenha(halfedges, e)
            },
        forall|k: int, l: int|
            0 <= k < l < duenhas(halfedges, hasta).len() ==> duenhas(halfedges, hasta)[k] < duenhas(
                halfedges,
                hasta,
            )[l],
        forall|e: int|
            0 <= e < hasta && duenha(halfedges, e) ==> duenhas(halfedges, hasta).contains(e),
        duenhas(halfedges, hasta).len() <= hasta,
    decreases hasta,
{
    if hasta > 0 {
        duenhas_en_orden(halfedges, hasta - 1);
        let previas = duenhas(halfedges, hasta - 1);
        let todas = duenhas(halfedges, hasta);
        if duenha(halfedges, hasta - 1) {
            assert(todas[previas.len() as int] == hasta - 1);
        }
        assert forall|e: int| 0 <= e < hasta && duenha(halfedges, e) implies todas.contains(e) by {
            if e < hasta - 1 {
                let k = choose|k: int| 0 <= k < previas.len() && previas[k] == e;
                assert(todas[k] == e);
            }
        }
    }
}

/// Each edge is owned once: a half-edge without a twin owns its edge, and of two
/// half-edges that are each other's twin exactly one does.
pub proof fn un_duenho(halfedges: Seq<usize>, e: int)
    requires
        0 <= e < halfedges.len() <= usize::MAX,
    ensures
        halfedges[e] == usize::MAX ==> duenha(halfedges, e),
        ({
            let gemela = halfedges[e] as int;
            gemela < halfedges.len() && gemela != e && halfedges[gemela] == e ==> (duenha(
                halfedges,
                e,
            ) != duenha(halfedges, gemela))
        }),
{
}

/// The edges of a triangulation, each once: for every owning half-edge, in ascending
/// order, the two entities it joins.
pub open spec fn aristas_de(triangles: Seq<usize>, halfedges: Seq<usize>) -> Seq<(usize, usize)> {
    duenhas(halfedges, halfedges.len() as int).map_values(|e: int| extremos(triangles, e))
}

/// The two tables are those of one triangulation of `n` entities: they are equally
/// long, hold whole triangles, and name entities below `n`.
pub open spec fn es_malla(triangles: Seq<usize>, halfedges: Seq<usize>, n: nat) -> bool {
    &&& triangles.len() == halfedges.len()
    &&& triangles.len() % 3 == 0
    &&& forall|e: int| 0 <= e < triangles.len() ==> (#[trigger] triangles[e]) < n
}

/// Decides `es_malla`.
pub fn puede_triangular(triangles: &Vec<usize>, halfedges: &Vec<usize>, n: usize) -> (ok: bool)
    ensures
        ok == es_malla(triangles@, halfedges@, n as nat),
{
    if triangles.len() != halfedges.len() || triangles.len() % 3 != 0 {
        return false;
    }
    let mut e: usize = 0;
    while e < triangles.len()
        invariant
            e <= triangles.len(),
            forall|k: int| 0 <= k < e ==> (#[trigger] triangles[k]) < n,
        decreases triangles.len() - e,
    {
        if triangles[e] >= n {
            return false;
        }
        e = e + 1;
    }
    true
}

/// Both entities of every edge of a triangulation of `n` entities are below `n`.
pub proof fn aristas_en_rango(triangles: Seq<usize>, halfedges: Seq<usize>, n: nat)
    requires
        es_malla(triangles, halfedges, n),
    ensures
        forall|k: int|
            0 <= k < aristas_de(triangles, halfedges).len() ==> {
                let par = #[trigger] aristas_de(triangles, halfedges)[k];
                par.0 < n && par.1 < n
            },
{
    duenhas_en_orden(halfedges, halfedges.len() as int);
    assert forall|k: int| 0 <= k < aristas_de(triangles, halfedges).len() implies {
        let par = #[trigger] aristas_de(triangles, halfedges)[k];
        par.0 < n && par.1 < n
    } by {
        let e = duenhas(halfedges, halfedges.len() as int)[k];
        assert(0 <= e < halfedges.len());
        assert(0 <= siguiente(e) < triangles.len());
        assert(triangles[e] < n);
        assert(triangles[siguiente(e)] < n);
    }
}

/// Lists the edges of a triangulation, each once: for every owning half-edge, in
/// ascending order, the two entities it joins.
pub fn aristas(triangles: &Vec<usize>, halfedges: &Vec<usize>) -> (pares: Vec<(usize, usize)>)
    requires
        triangles.len() == halfedges.len(),
        triangles.len() % 3 == 0,
    ensures
        pares@ == aristas_de(triangles@, halfedges@),
{
    let marca = sin_gemela();
    let mut pares: Vec<(usize, usize)> = Vec::new();
    let mut e: usize = 0;
    while e < triangles.len()
        invariant
            e <= triangles.len(),
            triangles.len() == halfedges.len(),
            triangles.len() % 3 == 0,
            marca == usize::MAX,
            pares@ == duenhas(halfedges@, e as int).map_values(|e: int| extremos(triangles@, e)),
        decreases triangles.len() - e,
    {
        let gemela = halfedges[e];
        let ghost antes = duenhas(halfedges@, e as int);
        if gemela == marca || e > gemela {
            let next = delaunator::next_halfedge(e);
            pares.push((triangles[e], triangles[next]));
            proof {
                assert(pares@ =~= antes.push(e as int).map_values(
                    |e: int| extremos(triangles@, e),
                ));
            }
        }
        e = e + 1;
    }
    pares
}

} // verus!
