//! Runtime values of a reaction-notation language, encoded as small labelled
//! graphs of atoms, with the builders, flattening and valuation over them.

pub mod atom_like;
pub mod atoms;
pub mod depth;
pub mod element;
pub mod flatten;
pub mod functional_groups;
pub mod graph;
pub mod lex;
pub mod molecule;
pub mod tok;
pub mod traits;
pub mod valuation;
pub mod value;
pub mod weight;
