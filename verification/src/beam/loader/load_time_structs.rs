//! The entries of the tables of a module.
use vstd::prelude::*;

verus! {

/// A function that a module uses from another one.
#[derive(Copy, Clone, Debug, PartialEq, Eq, Structural)]
pub struct LtImport {
    pub mod_atom_i: usize,
    pub fun_atom_i: usize,
    pub arity: usize,
}

/// A function of a module, and where it begins.
#[derive(Copy, Clone, Debug, PartialEq, Eq, Structural)]
pub struct LtExport {
    pub fun_atom_i: usize,
    pub arity: usize,
    pub label: usize,
}

/// A function without a name.
#[derive(Copy, Clone, Debug, PartialEq, Eq, Structural)]
pub struct LtFun {
    pub fun_atom_i: usize,
    pub arity: usize,
    pub code_pos: usize,
    pub index: usize,
    pub nfrozen: usize,
    pub ouniq: usize,
}

} // verus!
