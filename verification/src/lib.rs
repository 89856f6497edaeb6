//! Density clustering of geolocated entities.
//!
//! Every entity of an arena gets a density score, a rank among its neighbours and,
//! where one can be found for it, the label of a cluster.  The stages, in the order
//! in which a run goes through them:
//!
//! - [`accesibilidad`] stores the density score of every entity;
//! - [`rankeo`] ranks every entity among its neighbours and seeds a cluster at every
//!   entity of rank one;
//! - [`jardinero`] grows every seed over the unlabelled entities within its radius;
//! - [`malla`] lists the edges of a triangulation of the entities, and [`tejedor`]
//!   spreads the labels over them, the cheapest crossing edge first;
//! - [`totems`] gives every entity still without a label the label of its nearest
//!   labelled neighbour.
//!
//! [`corrida`] is a whole run: it takes the stages in their order and refuses what
//! does not fit.  [`negocio`] holds the entities and [`consulta`] what the stages
//! expect of the lists of neighbours they are given.
//!
//! The library measures nothing and holds whole numbers only.  Its caller finds the
//! neighbours, measures the distances and works out the scores.  A distance reaches
//! the library as the bit pattern of its binary64 value, which for distances, never
//! negative, is ordered as the distance itself; a score as its whole part and a
//! number that orders scores in the same way.

pub mod accesibilidad;
pub mod consulta;
pub mod corrida;
pub mod jardinero;
pub mod malla;
pub mod negocio;
pub mod rankeo;
pub mod tejedor;
pub mod totems;
