//! The density scores of the entities.

use vstd::prelude::*;
use crate::negocio::{Acces, Negocio};

verus! {

impl Negocio {
    /// The same entity carrying the density score `acces`.
    pub open spec fn con_acces(self, acces: Acces) -> Negocio {
        Negocio { acces: Some(acces), ..self }
    }
}

/// The arena with the scores `medidas` written to it, one for each entity.
pub open spec fn medido(datos: Seq<Negocio>, medidas: Seq<Acces>) -> Seq<Negocio> {
    Seq::new(datos.len(), |i: int| datos[i].con_acces(medidas[i]))
}

/// Writes the density score of every entity: the entity at `i` gets `medidas[i]`.
/// Nothing else of an entity changes.
pub fn accesibilidad(medidas: &Vec<Acces>, vector_datos: &mut Vec<Negocio>)
    requires
        medidas.len() == old(vector_datos).len(),
    ensures
        final(vector_datos)@ == medido(old(vector_datos)@, medidas@),
{
    let ghost previos = vector_datos@;
    let mut pos: usize = 0;
    while pos < vector_datos.len()
        invariant
            pos <= vector_datos.len(),
            vector_datos.len() == previos.len(),
            medidas.len() == previos.len(),
            forall|i: int| 0 <= i < pos ==> #[trigger] vector_datos[i] == previos[i].con_acces(medidas[i]),
            forall|i: int| pos <= i < previos.len() ==> #[trigger] vector_datos[i] == previos[i],
        decreases vector_datos.len() - pos,
    {
        vector_datos[pos].acces = Some(medidas[pos]);
        pos = pos + 1;
    }
    proof {
        assert(vector_datos@ =~= medido(previos, medidas@));
    }
}

} // verus!
