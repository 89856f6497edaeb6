//! Answers of neighbour queries, as the stages read them.
//!
//! A query asks for the entities nearest to a point and is answered with a list that
//! starts at the nearest.  A stage reads no more of a list than the number of
//! neighbours its rule asks for.

use vstd::prelude::*;

verus! {

/// How many neighbours the growth and the gap filling stages look at.
pub const VECINOS: usize = 2000;

/// The first `k` items of `lista`, or all of it if it has fewer.
pub open spec fn primeros<T>(lista: Seq<T>, k: nat) -> Seq<T> {
    if k < lista.len() {
        lista.take(k as int)
    } else {
        lista
    }
}

/// Every handle in `lista` addresses one of `n` entities.
pub open spec fn en_rango(lista: Seq<usize>, n: nat) -> bool {
    forall|j: int| 0 <= j < lista.len() ==> (#[trigger] lista[j]) < n
}

/// Every list holds handles of `n` entities only.
pub open spec fn listas_validas(listas: Seq<Vec<usize>>, n: nat) -> bool {
    forall|i: int| 0 <= i < listas.len() ==> en_rango((#[trigger] listas[i])@, n)
}

/// How much of a list of `largo` answers is read when `k` neighbours are asked for.
pub fn tope(largo: usize, k: usize) -> (t: usize)
    ensures
        t == if k < largo { k } else { largo },
{
    if k < largo {
        k
    } else {
        largo
    }
}

/// Decides `en_rango`.
pub fn lista_en_rango(lista: &Vec<usize>, n: usize) -> (ok: bool)
    ensures
        ok == en_rango(lista@, n as nat),
{
    let mut j: usize = 0;
    while j < lista.len()
        invariant
            j <= lista.len(),
            en_rango(lista@.take(j as int), n as nat),
        decreases lista.len() - j,
    {
        if lista[j] >= n {
            return false;
        }
        proof {
            assert forall|k: int| 0 <= k < j + 1 implies (#[trigger] lista@.take(j + 1)[k]) < n by {
                if k < j {
                    assert(lista@.take(j as int)[k] < n);
                }
            }
        }
        j = j + 1;
    }
    proof {
        lista@.lemma_take_len();
    }
    true
}

/// Decides `listas_validas`.
pub fn listas_en_rango(listas: &Vec<Vec<usize>>, n: usize) -> (ok: bool)
    ensures
        ok == listas_validas(listas@, n as nat),
{
    let mut i: usize = 0;
    while i < listas.len()
        invariant
            i <= listas.len(),
            forall|k: int| 0 <= k < i ==> en_rango((#[trigger] listas[k])@, n as nat),
        decreases listas.len() - i,
    {
        if !lista_en_rango(&listas[i], n) {
            return false;
        }
        i = i + 1;
    }
    true
}

} // verus!
