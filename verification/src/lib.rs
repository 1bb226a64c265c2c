//! Feature-weight learning for a 1-nearest-neighbour classifier.
//!
//! A weight vector gives every attribute of a labelled sample a weight
//! between zero and one.  Its score blends how well the weighted
//! nearest-neighbour rule classifies the sample with how many attributes
//! it prunes, and a family of searches (local search, genetic and
//! memetic algorithms, simulated annealing, iterated local search,
//! differential evolution) looks for a vector of high score.
//!
//! Every quantity is an integer: weights, attribute values, rates and
//! temperatures are fixed-point numbers counted in millionths (see
//! [`fijo`]).  Distances are exact, so the classifier and the objective
//! function are ordinary functions on integers, and each search is
//! proved against them.

pub mod fijo;
pub mod aleatorio;
pub mod semilla;
pub mod knn;
pub mod evaluacion_pesos;
pub mod particion;
pub mod poblacion;
pub mod funciones_practica1;
pub mod funciones_practica2;
pub mod funciones_practica3;
pub mod algoritmos;
